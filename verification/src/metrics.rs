//! Process-lifetime counters and gauges behind the metrics endpoint.

use crate::text;
use vstd::prelude::*;

verus! {

/// The counters and gauges of one process. Counters wrap around at the end of their range.
#[derive(Debug, Clone, Copy, PartialEq, Eq, Structural)]
pub struct Metrics {
    /// Commit-status posts the forge rejected.
    pub forge_failures: u64,
    /// Commit-status messages retired as poison.
    pub forge_dead_lettered: u64,
    /// Reachable objects the last pass found missing from cold storage.
    pub cold_residue: u64,
    /// The same, under roots younger than the grace window.
    pub cold_residue_suppressed: u64,
    /// 1 while this replica's last pass held the sweep lease.
    pub leader: u64,
    /// 1 while the last pass's tier probe failed.
    pub tier_probe_failed: u64,
}

impl Metrics {
    /// All counters and gauges at zero.
    pub fn new() -> (r: Metrics)
        ensures
            r == (Metrics {
                forge_failures: 0,
                forge_dead_lettered: 0,
                cold_residue: 0,
                cold_residue_suppressed: 0,
                leader: 0,
                tier_probe_failed: 0,
            }),
    {
        Metrics {
            forge_failures: 0,
            forge_dead_lettered: 0,
            cold_residue: 0,
            cold_residue_suppressed: 0,
            leader: 0,
            tier_probe_failed: 0,
        }
    }
}

/// One more, starting over behind the largest value.
pub open spec fn bumped(n: u64) -> u64 {
    if n == u64::MAX {
        0
    } else {
        (n + 1) as u64
    }
}

fn bump(n: u64) -> (r: u64)
    ensures
        r == bumped(n),
{
    if n == u64::MAX {
        0
    } else {
        n + 1
    }
}

pub open spec fn flag(b: bool) -> u64 {
    if b {
        1
    } else {
        0
    }
}

/// Count one rejected commit-status post.
pub fn record_forge_status_failure(m: &mut Metrics)
    ensures
        *final(m) == (Metrics { forge_failures: bumped(old(m).forge_failures), ..*old(m) }),
{
    m.forge_failures = bump(m.forge_failures);
}

/// Count one commit-status message dead-lettered as poison.
pub fn record_forge_status_dead_lettered(m: &mut Metrics)
    ensures
        *final(m) == (Metrics { forge_dead_lettered: bumped(old(m).forge_dead_lettered), ..*old(m) }),
{
    m.forge_dead_lettered = bump(m.forge_dead_lettered);
}

/// Rejected commit-status posts since process start.
pub fn forge_status_failures(m: &Metrics) -> (r: u64)
    ensures
        r == m.forge_failures,
{
    m.forge_failures
}

/// Commit-status messages dead-lettered since process start.
pub fn forge_status_dead_lettered(m: &Metrics) -> (r: u64)
    ensures
        r == m.forge_dead_lettered,
{
    m.forge_dead_lettered
}

/// Record one pass's cold residue, alarmed and suppressed. Set per pass, not accumulated.
pub fn set_cas_gc_cold_residue(m: &mut Metrics, alarmed: u64, suppressed: u64)
    ensures
        *final(m) == (Metrics { cold_residue: alarmed, cold_residue_suppressed: suppressed, ..*old(m) }),
{
    m.cold_residue = alarmed;
    m.cold_residue_suppressed = suppressed;
}

/// Record whether this replica held the sweep lease on its last pass.
pub fn set_cas_gc_leader(m: &mut Metrics, leader: bool)
    ensures
        *final(m) == (Metrics { leader: flag(leader), ..*old(m) }),
{
    m.leader = if leader {
        1
    } else {
        0
    };
}

/// Record whether the last pass's tier probe failed.
pub fn set_cas_gc_tier_probe_failed(m: &mut Metrics, failed: bool)
    ensures
        *final(m) == (Metrics { tier_probe_failed: flag(failed), ..*old(m) }),
{
    m.tier_probe_failed = if failed {
        1
    } else {
        0
    };
}

/// Cold residue the last pass alarmed on.
pub fn cas_gc_cold_residue(m: &Metrics) -> (r: u64)
    ensures
        r == m.cold_residue,
{
    m.cold_residue
}

/// Cold residue the last pass suppressed as possibly in flight.
pub fn cas_gc_cold_residue_suppressed(m: &Metrics) -> (r: u64)
    ensures
        r == m.cold_residue_suppressed,
{
    m.cold_residue_suppressed
}

/// 1 if this replica's last pass held the sweep lease, else 0.
pub fn cas_gc_leader(m: &Metrics) -> (r: u64)
    ensures
        r == m.leader,
{
    m.leader
}

/// 1 if the last pass's tier probe failed, else 0.
pub fn cas_gc_tier_probe_failed(m: &Metrics) -> (r: u64)
    ensures
        r == m.tier_probe_failed,
{
    m.tier_probe_failed
}

/// What this process saw of the tiered workspace store.
#[derive(Debug, Clone, Copy)]
pub struct TieredTotals {
    pub warm_write_failed: u64,
    pub cold_fallback: u64,
    pub warm_read_failed: u64,
}

/// One sample: the metric's help and type, then its value.
pub open spec fn sample(header: Seq<char>, value: u64) -> Seq<char> {
    header + text::decimal(value as nat) + "\n"@
}

/// The counters as Prometheus text.
pub open spec fn rendered(m: Metrics, t: TieredTotals) -> Seq<char> {
    sample(
        "# HELP scarab_forge_status_failures_total Commit-status posts rejected by the forge.\n# TYPE scarab_forge_status_failures_total counter\nscarab_forge_status_failures_total "@,
        m.forge_failures,
    ) + sample(
        "# HELP scarab_forge_status_dead_lettered_total Commit-status messages retired as poison (never posted).\n# TYPE scarab_forge_status_dead_lettered_total counter\nscarab_forge_status_dead_lettered_total "@,
        m.forge_dead_lettered,
    ) + sample(
        "# HELP scarab_cas_gc_cold_residue Reachable workspace objects the last GC pass found missing from cold storage (torn cold tier; alarmed).\n# TYPE scarab_cas_gc_cold_residue gauge\nscarab_cas_gc_cold_residue "@,
        m.cold_residue,
    ) + sample(
        "# HELP scarab_cas_gc_cold_residue_suppressed Torn-cold residue suppressed as possibly an in-flight flush (first-marking root younger than the grace window).\n# TYPE scarab_cas_gc_cold_residue_suppressed gauge\nscarab_cas_gc_cold_residue_suppressed "@,
        m.cold_residue_suppressed,
    ) + sample(
        "# HELP scarab_cas_gc_leader Whether this replica's last CAS GC pass held the sweep lease (1 = leader; the residue gauges above are live here, non-leaders hold 0).\n# TYPE scarab_cas_gc_leader gauge\nscarab_cas_gc_leader "@,
        m.leader,
    ) + sample(
        "# HELP scarab_cas_gc_tier_probe_failed Whether the last CAS GC pass's Depot tier probe failed (when 1, residue alarms may be warm-only false positives — fix the probe first).\n# TYPE scarab_cas_gc_tier_probe_failed gauge\nscarab_cas_gc_tier_probe_failed "@,
        m.tier_probe_failed,
    ) + sample(
        "# HELP scarab_workspace_warm_write_failed_total Snapshot writes that reached cold but not the workspace service (durable; a cache miss to come).\n# TYPE scarab_workspace_warm_write_failed_total counter\nscarab_workspace_warm_write_failed_total "@,
        t.warm_write_failed,
    ) + sample(
        "# HELP scarab_workspace_cold_fallback_total Snapshot reads served from cold storage because the workspace service did not have them.\n# TYPE scarab_workspace_cold_fallback_total counter\nscarab_workspace_cold_fallback_total "@,
        t.cold_fallback,
    ) + sample(
        "# HELP scarab_workspace_warm_read_failed_total Snapshot reads where the workspace service ERRORED and cold storage answered instead (ADR-0061 D1.6).\n# TYPE scarab_workspace_warm_read_failed_total counter\nscarab_workspace_warm_read_failed_total "@,
        t.warm_read_failed,
    )
}

fn append_sample(out: &mut String, header: &str, value: u64)
    ensures
        final(out)@ == old(out)@ + sample(header@, value),
{
    out.append(header);
    out.append(text::u64_to_string(value).as_str());
    out.append("\n");
    assert(out@ =~= old(out)@ + sample(header@, value));
}

/// Append the counters to a Prometheus text exposition body.
pub fn render(out: &mut String, m: &Metrics, t: &TieredTotals)
    ensures
        final(out)@ == old(out)@ + rendered(*m, *t),
{
    append_sample(
        out,
        "# HELP scarab_forge_status_failures_total Commit-status posts rejected by the forge.\n# TYPE scarab_forge_status_failures_total counter\nscarab_forge_status_failures_total ",
        m.forge_failures,
    );
    append_sample(
        out,
        "# HELP scarab_forge_status_dead_lettered_total Commit-status messages retired as poison (never posted).\n# TYPE scarab_forge_status_dead_lettered_total counter\nscarab_forge_status_dead_lettered_total ",
        m.forge_dead_lettered,
    );
    append_sample(
        out,
        "# HELP scarab_cas_gc_cold_residue Reachable workspace objects the last GC pass found missing from cold storage (torn cold tier; alarmed).\n# TYPE scarab_cas_gc_cold_residue gauge\nscarab_cas_gc_cold_residue ",
        m.cold_residue,
    );
    append_sample(
        out,
        "# HELP scarab_cas_gc_cold_residue_suppressed Torn-cold residue suppressed as possibly an in-flight flush (first-marking root younger than the grace window).\n# TYPE scarab_cas_gc_cold_residue_suppressed gauge\nscarab_cas_gc_cold_residue_suppressed ",
        m.cold_residue_suppressed,
    );
    append_sample(
        out,
        "# HELP scarab_cas_gc_leader Whether this replica's last CAS GC pass held the sweep lease (1 = leader; the residue gauges above are live here, non-leaders hold 0).\n# TYPE scarab_cas_gc_leader gauge\nscarab_cas_gc_leader ",
        m.leader,
    );
    append_sample(
        out,
        "# HELP scarab_cas_gc_tier_probe_failed Whether the last CAS GC pass's Depot tier probe failed (when 1, residue alarms may be warm-only false positives — fix the probe first).\n# TYPE scarab_cas_gc_tier_probe_failed gauge\nscarab_cas_gc_tier_probe_failed ",
        m.tier_probe_failed,
    );
    append_sample(
        out,
        "# HELP scarab_workspace_warm_write_failed_total Snapshot writes that reached cold but not the workspace service (durable; a cache miss to come).\n# TYPE scarab_workspace_warm_write_failed_total counter\nscarab_workspace_warm_write_failed_total ",
        t.warm_write_failed,
    );
    append_sample(
        out,
        "# HELP scarab_workspace_cold_fallback_total Snapshot reads served from cold storage because the workspace service did not have them.\n# TYPE scarab_workspace_cold_fallback_total counter\nscarab_workspace_cold_fallback_total ",
        t.cold_fallback,
    );
    append_sample(
        out,
        "# HELP scarab_workspace_warm_read_failed_total Snapshot reads where the workspace service ERRORED and cold storage answered instead (ADR-0061 D1.6).\n# TYPE scarab_workspace_warm_read_failed_total counter\nscarab_workspace_warm_read_failed_total ",
        t.warm_read_failed,
    );
    assert(out@ =~= old(out)@ + rendered(*m, *t));
}

/// One line per run status.
pub open spec fn status_lines(counts: Seq<(String, i64)>) -> Seq<char>
    decreases counts.len(),
{
    if counts.len() == 0 {
        Seq::<char>::empty()
    } else {
        status_lines(counts.drop_last()) + "scarab_runs{status=\""@ + counts.last().0@ + "\"} "@
            + text::signed_decimal(counts.last().1 as int) + "\n"@
    }
}

/// The whole scrape: runs by status, the outbox backlog, then the process's counters.
pub open spec fn exposition(counts: Seq<(String, i64)>, outbox_depth: i64, m: Metrics, t: TieredTotals) -> Seq<char> {
    "# HELP scarab_runs Current run count by status.\n# TYPE scarab_runs gauge\n"@ + status_lines(counts)
        + "# HELP scarab_outbox_depth Undispatched outbox messages.\n# TYPE scarab_outbox_depth gauge\nscarab_outbox_depth "@
        + text::signed_decimal(outbox_depth as int) + "\n"@ + rendered(m, t)
}

/// The body of a scrape, from the store's counts and the process's counters.
pub fn scrape(counts: &Vec<(String, i64)>, outbox_depth: i64, m: &Metrics, t: &TieredTotals) -> (r: String)
    ensures
        r@ == exposition(counts@, outbox_depth, *m, *t),
{
    let mut out = "# HELP scarab_runs Current run count by status.\n# TYPE scarab_runs gauge\n".to_owned();
    let ghost header = out@;
    let mut i: usize = 0;
    assert(out@ =~= header + status_lines(counts@.take(0)));
    while i < counts.len()
        invariant
            i <= counts@.len(),
            out@ == header + status_lines(counts@.take(i as int)),
        decreases counts@.len() - i,
    {
        let ghost next = counts@.take(i + 1);
        let ghost before = out@;
        assert(next.drop_last() =~= counts@.take(i as int));
        assert(next.last() == counts@[i as int]);
        out.append("scarab_runs{status=\"");
        out.append(counts[i].0.as_str());
        out.append("\"} ");
        out.append(text::i64_to_string(counts[i].1).as_str());
        out.append("\n");
        assert(out@ =~= header + status_lines(next));
        i = i + 1;
    }
    assert(counts@.take(i as int) =~= counts@);
    out.append(
        "# HELP scarab_outbox_depth Undispatched outbox messages.\n# TYPE scarab_outbox_depth gauge\nscarab_outbox_depth ",
    );
    out.append(text::i64_to_string(outbox_depth).as_str());
    out.append("\n");
    render(&mut out, m, t);
    out
}

/// A counter counts one by one through its whole range and then starts over.
pub proof fn counters_count_one_by_one(n: u64)
    ensures
        bumped(n) == (n + 1) % 0x1_0000_0000_0000_0000,
        flag(true) == 1,
        flag(false) == 0,
{
}

/// Every status has one line with its name and its count, in the order of the counts.
pub proof fn every_status_has_its_line(first: Seq<(String, i64)>, more: Seq<(String, i64)>, name: String, n: i64)
    ensures
        status_lines(first + more) == status_lines(first) + status_lines(more),
        status_lines(seq![(name, n)]) == "scarab_runs{status=\""@ + name@ + "\"} "@ + text::signed_decimal(n as int)
            + "\n"@,
    decreases more.len(),
{
    reveal_with_fuel(status_lines, 2);
    let one = seq![(name, n)];
    assert(one.drop_last() =~= Seq::<(String, i64)>::empty());
    assert(status_lines(one) =~= "scarab_runs{status=\""@ + name@ + "\"} "@ + text::signed_decimal(n as int) + "\n"@);
    if more.len() == 0 {
        assert(first + more =~= first);
        assert(status_lines(first) + status_lines(more) =~= status_lines(first));
    } else {
        let rest = more.drop_last();
        every_status_has_its_line(first, rest, name, n);
        assert((first + more).drop_last() =~= first + rest);
        assert((first + more).last() == more.last());
        assert(status_lines(first + more) =~= status_lines(first) + status_lines(more));
    }
}

/// Every counter and every gauge has a line with its name and its own value.
pub proof fn every_counter_has_its_line(m: Metrics, t: TieredTotals)
    ensures
        text::contains(rendered(m, t), "scarab_forge_status_failures_total "@ + text::decimal(m.forge_failures as nat) + "\n"@),
        text::contains(rendered(m, t), "scarab_forge_status_dead_lettered_total "@ + text::decimal(m.forge_dead_lettered as nat) + "\n"@),
        text::contains(rendered(m, t), "scarab_cas_gc_cold_residue "@ + text::decimal(m.cold_residue as nat) + "\n"@),
        text::contains(rendered(m, t), "scarab_cas_gc_cold_residue_suppressed "@ + text::decimal(m.cold_residue_suppressed as nat) + "\n"@),
        text::contains(rendered(m, t), "scarab_cas_gc_leader "@ + text::decimal(m.leader as nat) + "\n"@),
        text::contains(rendered(m, t), "scarab_cas_gc_tier_probe_failed "@ + text::decimal(m.tier_probe_failed as nat) + "\n"@),
        text::contains(rendered(m, t), "scarab_workspace_warm_write_failed_total "@ + text::decimal(t.warm_write_failed as nat) + "\n"@),
        text::contains(rendered(m, t), "scarab_workspace_cold_fallback_total "@ + text::decimal(t.cold_fallback as nat) + "\n"@),
        text::contains(rendered(m, t), "scarab_workspace_warm_read_failed_total "@ + text::decimal(t.warm_read_failed as nat) + "\n"@),
{
    let s0 = sample(
        "# HELP scarab_forge_status_failures_total Commit-status posts rejected by the forge.\n# TYPE scarab_forge_status_failures_total counter\nscarab_forge_status_failures_total "@,
        m.forge_failures,
    );
    let s1 = sample(
        "# HELP scarab_forge_status_dead_lettered_total Commit-status messages retired as poison (never posted).\n# TYPE scarab_forge_status_dead_lettered_total counter\nscarab_forge_status_dead_lettered_total "@,
        m.forge_dead_lettered,
    );
    let s2 = sample(
        "# HELP scarab_cas_gc_cold_residue Reachable workspace objects the last GC pass found missing from cold storage (torn cold tier; alarmed).\n# TYPE scarab_cas_gc_cold_residue gauge\nscarab_cas_gc_cold_residue "@,
        m.cold_residue,
    );
    let s3 = sample(
        "# HELP scarab_cas_gc_cold_residue_suppressed Torn-cold residue suppressed as possibly an in-flight flush (first-marking root younger than the grace window).\n# TYPE scarab_cas_gc_cold_residue_suppressed gauge\nscarab_cas_gc_cold_residue_suppressed "@,
        m.cold_residue_suppressed,
    );
    let s4 = sample(
        "# HELP scarab_cas_gc_leader Whether this replica's last CAS GC pass held the sweep lease (1 = leader; the residue gauges above are live here, non-leaders hold 0).\n# TYPE scarab_cas_gc_leader gauge\nscarab_cas_gc_leader "@,
        m.leader,
    );
    let s5 = sample(
        "# HELP scarab_cas_gc_tier_probe_failed Whether the last CAS GC pass's Depot tier probe failed (when 1, residue alarms may be warm-only false positives — fix the probe first).\n# TYPE scarab_cas_gc_tier_probe_failed gauge\nscarab_cas_gc_tier_probe_failed "@,
        m.tier_probe_failed,
    );
    let s6 = sample(
        "# HELP scarab_workspace_warm_write_failed_total Snapshot writes that reached cold but not the workspace service (durable; a cache miss to come).\n# TYPE scarab_workspace_warm_write_failed_total counter\nscarab_workspace_warm_write_failed_total "@,
        t.warm_write_failed,
    );
    let s7 = sample(
        "# HELP scarab_workspace_cold_fallback_total Snapshot reads served from cold storage because the workspace service did not have them.\n# TYPE scarab_workspace_cold_fallback_total counter\nscarab_workspace_cold_fallback_total "@,
        t.cold_fallback,
    );
    let s8 = sample(
        "# HELP scarab_workspace_warm_read_failed_total Snapshot reads where the workspace service ERRORED and cold storage answered instead (ADR-0061 D1.6).\n# TYPE scarab_workspace_warm_read_failed_total counter\nscarab_workspace_warm_read_failed_total "@,
        t.warm_read_failed,
    );
    assert(rendered(m, t) =~= Seq::<char>::empty() + s0 + (s1 + s2 + s3 + s4 + s5 + s6 + s7 + s8));
    forge_failures_stands_under_its_name();
    samples_show_their_value(
        Seq::<char>::empty(),
        "# HELP scarab_forge_status_failures_total Commit-status posts rejected by the forge.\n# TYPE scarab_forge_status_failures_total counter\nscarab_forge_status_failures_total "@,
        "scarab_forge_status_failures_total "@,
        m.forge_failures,
        s1 + s2 + s3 + s4 + s5 + s6 + s7 + s8,
    );
    assert(rendered(m, t) =~= (s0) + s1 + (s2 + s3 + s4 + s5 + s6 + s7 + s8));
    forge_dead_lettered_stands_under_its_name();
    samples_show_their_value(
        s0,
        "# HELP scarab_forge_status_dead_lettered_total Commit-status messages retired as poison (never posted).\n# TYPE scarab_forge_status_dead_lettered_total counter\nscarab_forge_status_dead_lettered_total "@,
        "scarab_forge_status_dead_lettered_total "@,
        m.forge_dead_lettered,
        s2 + s3 + s4 + s5 + s6 + s7 + s8,
    );
    assert(rendered(m, t) =~= (s0 + s1) + s2 + (s3 + s4 + s5 + s6 + s7 + s8));
    cold_residue_stands_under_its_name();
    samples_show_their_value(
        s0 + s1,
        "# HELP scarab_cas_gc_cold_residue Reachable workspace objects the last GC pass found missing from cold storage (torn cold tier; alarmed).\n# TYPE scarab_cas_gc_cold_residue gauge\nscarab_cas_gc_cold_residue "@,
        "scarab_cas_gc_cold_residue "@,
        m.cold_residue,
        s3 + s4 + s5 + s6 + s7 + s8,
    );
    assert(rendered(m, t) =~= (s0 + s1 + s2) + s3 + (s4 + s5 + s6 + s7 + s8));
    cold_residue_suppressed_stands_under_its_name();
    samples_show_their_value(
        s0 + s1 + s2,
        "# HELP scarab_cas_gc_cold_residue_suppressed Torn-cold residue suppressed as possibly an in-flight flush (first-marking root younger than the grace window).\n# TYPE scarab_cas_gc_cold_residue_suppressed gauge\nscarab_cas_gc_cold_residue_suppressed "@,
        "scarab_cas_gc_cold_residue_suppressed "@,
        m.cold_residue_suppressed,
        s4 + s5 + s6 + s7 + s8,
    );
    assert(rendered(m, t) =~= (s0 + s1 + s2 + s3) + s4 + (s5 + s6 + s7 + s8));
    leader_stands_under_its_name();
    samples_show_their_value(
        s0 + s1 + s2 + s3,
        "# HELP scarab_cas_gc_leader Whether this replica's last CAS GC pass held the sweep lease (1 = leader; the residue gauges above are live here, non-leaders hold 0).\n# TYPE scarab_cas_gc_leader gauge\nscarab_cas_gc_leader "@,
        "scarab_cas_gc_leader "@,
        m.leader,
        s5 + s6 + s7 + s8,
    );
    assert(rendered(m, t) =~= (s0 + s1 + s2 + s3 + s4) + s5 + (s6 + s7 + s8));
    tier_probe_failed_stands_under_its_name();
    samples_show_their_value(
        s0 + s1 + s2 + s3 + s4,
        "# HELP scarab_cas_gc_tier_probe_failed Whether the last CAS GC pass's Depot tier probe failed (when 1, residue alarms may be warm-only false positives — fix the probe first).\n# TYPE scarab_cas_gc_tier_probe_failed gauge\nscarab_cas_gc_tier_probe_failed "@,
        "scarab_cas_gc_tier_probe_failed "@,
        m.tier_probe_failed,
        s6 + s7 + s8,
    );
    assert(rendered(m, t) =~= (s0 + s1 + s2 + s3 + s4 + s5) + s6 + (s7 + s8));
    warm_write_failed_stands_under_its_name();
    samples_show_their_value(
        s0 + s1 + s2 + s3 + s4 + s5,
        "# HELP scarab_workspace_warm_write_failed_total Snapshot writes that reached cold but not the workspace service (durable; a cache miss to come).\n# TYPE scarab_workspace_warm_write_failed_total counter\nscarab_workspace_warm_write_failed_total "@,
        "scarab_workspace_warm_write_failed_total "@,
        t.warm_write_failed,
        s7 + s8,
    );
    assert(rendered(m, t) =~= (s0 + s1 + s2 + s3 + s4 + s5 + s6) + s7 + (s8));
    cold_fallback_stands_under_its_name();
    samples_show_their_value(
        s0 + s1 + s2 + s3 + s4 + s5 + s6,
        "# HELP scarab_workspace_cold_fallback_total Snapshot reads served from cold storage because the workspace service did not have them.\n# TYPE scarab_workspace_cold_fallback_total counter\nscarab_workspace_cold_fallback_total "@,
        "scarab_workspace_cold_fallback_total "@,
        t.cold_fallback,
        s8,
    );
    assert(rendered(m, t) =~= (s0 + s1 + s2 + s3 + s4 + s5 + s6 + s7) + s8 + Seq::<char>::empty());
    warm_read_failed_stands_under_its_name();
    samples_show_their_value(
        s0 + s1 + s2 + s3 + s4 + s5 + s6 + s7,
        "# HELP scarab_workspace_warm_read_failed_total Snapshot reads where the workspace service ERRORED and cold storage answered instead (ADR-0061 D1.6).\n# TYPE scarab_workspace_warm_read_failed_total counter\nscarab_workspace_warm_read_failed_total "@,
        "scarab_workspace_warm_read_failed_total "@,
        t.warm_read_failed,
        Seq::<char>::empty(),
    );
}

proof fn samples_show_their_value(before: Seq<char>, header: Seq<char>, name: Seq<char>, value: u64, behind: Seq<char>)
    requires
        text::has_suffix(header, name),
    ensures
        text::contains(before + sample(header, value) + behind, name + text::decimal(value as nat) + "\n"@),
{
    let all = before + sample(header, value) + behind;
    let line = name + text::decimal(value as nat) + "\n"@;
    let at = before.len() as int + header.len() - name.len();
    assert(header.subrange(header.len() - name.len(), header.len() as int) == name);
    assert(all.subrange(at, at + line.len()) =~= line) by {
        assert forall|i: int| 0 <= i < name.len() implies all[at + i] == name[i] by {
            assert(header.subrange(header.len() - name.len(), header.len() as int)[i] == name[i]);
        }
    }
    assert(text::occurs_at(all, line, at));
}

proof fn forge_failures_stands_under_its_name()
    ensures
        text::has_suffix(
            "# HELP scarab_forge_status_failures_total Commit-status posts rejected by the forge.\n# TYPE scarab_forge_status_failures_total counter\nscarab_forge_status_failures_total "@,
            "scarab_forge_status_failures_total "@,
        ),
{
    reveal_strlit(
        "# HELP scarab_forge_status_failures_total Commit-status posts rejected by the forge.\n# TYPE scarab_forge_status_failures_total counter\nscarab_forge_status_failures_total ",
    );
    reveal_strlit("scarab_forge_status_failures_total ");
    let h = "# HELP scarab_forge_status_failures_total Commit-status posts rejected by the forge.\n# TYPE scarab_forge_status_failures_total counter\nscarab_forge_status_failures_total "@;
    let n = "scarab_forge_status_failures_total "@;
    assert(h.subrange(h.len() - n.len(), h.len() as int) =~= n);
}

proof fn forge_dead_lettered_stands_under_its_name()
    ensures
        text::has_suffix(
            "# HELP scarab_forge_status_dead_lettered_total Commit-status messages retired as poison (never posted).\n# TYPE scarab_forge_status_dead_lettered_total counter\nscarab_forge_status_dead_lettered_total "@,
            "scarab_forge_status_dead_lettered_total "@,
        ),
{
    reveal_strlit(
        "# HELP scarab_forge_status_dead_lettered_total Commit-status messages retired as poison (never posted).\n# TYPE scarab_forge_status_dead_lettered_total counter\nscarab_forge_status_dead_lettered_total ",
    );
    reveal_strlit("scarab_forge_status_dead_lettered_total ");
    let h = "# HELP scarab_forge_status_dead_lettered_total Commit-status messages retired as poison (never posted).\n# TYPE scarab_forge_status_dead_lettered_total counter\nscarab_forge_status_dead_lettered_total "@;
    let n = "scarab_forge_status_dead_lettered_total "@;
    assert(h.subrange(h.len() - n.len(), h.len() as int) =~= n);
}

proof fn cold_residue_stands_under_its_name()
    ensures
        text::has_suffix(
            "# HELP scarab_cas_gc_cold_residue Reachable workspace objects the last GC pass found missing from cold storage (torn cold tier; alarmed).\n# TYPE scarab_cas_gc_cold_residue gauge\nscarab_cas_gc_cold_residue "@,
            "scarab_cas_gc_cold_residue "@,
        ),
{
    reveal_strlit(
        "# HELP scarab_cas_gc_cold_residue Reachable workspace objects the last GC pass found missing from cold storage (torn cold tier; alarmed).\n# TYPE scarab_cas_gc_cold_residue gauge\nscarab_cas_gc_cold_residue ",
    );
    reveal_strlit("scarab_cas_gc_cold_residue ");
    let h = "# HELP scarab_cas_gc_cold_residue Reachable workspace objects the last GC pass found missing from cold storage (torn cold tier; alarmed).\n# TYPE scarab_cas_gc_cold_residue gauge\nscarab_cas_gc_cold_residue "@;
    let n = "scarab_cas_gc_cold_residue "@;
    assert(h.subrange(h.len() - n.len(), h.len() as int) =~= n);
}

proof fn cold_residue_suppressed_stands_under_its_name()
    ensures
        text::has_suffix(
            "# HELP scarab_cas_gc_cold_residue_suppressed Torn-cold residue suppressed as possibly an in-flight flush (first-marking root younger than the grace window).\n# TYPE scarab_cas_gc_cold_residue_suppressed gauge\nscarab_cas_gc_cold_residue_suppressed "@,
            "scarab_cas_gc_cold_residue_suppressed "@,
        ),
{
    reveal_strlit(
        "# HELP scarab_cas_gc_cold_residue_suppressed Torn-cold residue suppressed as possibly an in-flight flush (first-marking root younger than the grace window).\n# TYPE scarab_cas_gc_cold_residue_suppressed gauge\nscarab_cas_gc_cold_residue_suppressed ",
    );
    reveal_strlit("scarab_cas_gc_cold_residue_suppressed ");
    let h = "# HELP scarab_cas_gc_cold_residue_suppressed Torn-cold residue suppressed as possibly an in-flight flush (first-marking root younger than the grace window).\n# TYPE scarab_cas_gc_cold_residue_suppressed gauge\nscarab_cas_gc_cold_residue_suppressed "@;
    let n = "scarab_cas_gc_cold_residue_suppressed "@;
    assert(h.subrange(h.len() - n.len(), h.len() as int) =~= n);
}

proof fn leader_stands_under_its_name()
    ensures
        text::has_suffix(
            "# HELP scarab_cas_gc_leader Whether this replica's last CAS GC pass held the sweep lease (1 = leader; the residue gauges above are live here, non-leaders hold 0).\n# TYPE scarab_cas_gc_leader gauge\nscarab_cas_gc_leader "@,
            "scarab_cas_gc_leader "@,
        ),
{
    reveal_strlit(
        "# HELP scarab_cas_gc_leader Whether this replica's last CAS GC pass held the sweep lease (1 = leader; the residue gauges above are live here, non-leaders hold 0).\n# TYPE scarab_cas_gc_leader gauge\nscarab_cas_gc_leader ",
    );
    reveal_strlit("scarab_cas_gc_leader ");
    let h = "# HELP scarab_cas_gc_leader Whether this replica's last CAS GC pass held the sweep lease (1 = leader; the residue gauges above are live here, non-leaders hold 0).\n# TYPE scarab_cas_gc_leader gauge\nscarab_cas_gc_leader "@;
    let n = "scarab_cas_gc_leader "@;
    assert(h.subrange(h.len() - n.len(), h.len() as int) =~= n);
}

proof fn tier_probe_failed_stands_under_its_name()
    ensures
        text::has_suffix(
            "# HELP scarab_cas_gc_tier_probe_failed Whether the last CAS GC pass's Depot tier probe failed (when 1, residue alarms may be warm-only false positives — fix the probe first).\n# TYPE scarab_cas_gc_tier_probe_failed gauge\nscarab_cas_gc_tier_probe_failed "@,
            "scarab_cas_gc_tier_probe_failed "@,
        ),
{
    reveal_strlit(
        "# HELP scarab_cas_gc_tier_probe_failed Whether the last CAS GC pass's Depot tier probe failed (when 1, residue alarms may be warm-only false positives — fix the probe first).\n# TYPE scarab_cas_gc_tier_probe_failed gauge\nscarab_cas_gc_tier_probe_failed ",
    );
    reveal_strlit("scarab_cas_gc_tier_probe_failed ");
    let h = "# HELP scarab_cas_gc_tier_probe_failed Whether the last CAS GC pass's Depot tier probe failed (when 1, residue alarms may be warm-only false positives — fix the probe first).\n# TYPE scarab_cas_gc_tier_probe_failed gauge\nscarab_cas_gc_tier_probe_failed "@;
    let n = "scarab_cas_gc_tier_probe_failed "@;
    assert(h.subrange(h.len() - n.len(), h.len() as int) =~= n);
}

proof fn warm_write_failed_stands_under_its_name()
    ensures
        text::has_suffix(
            "# HELP scarab_workspace_warm_write_failed_total Snapshot writes that reached cold but not the workspace service (durable; a cache miss to come).\n# TYPE scarab_workspace_warm_write_failed_total counter\nscarab_workspace_warm_write_failed_total "@,
            "scarab_workspace_warm_write_failed_total "@,
        ),
{
    reveal_strlit(
        "# HELP scarab_workspace_warm_write_failed_total Snapshot writes that reached cold but not the workspace service (durable; a cache miss to come).\n# TYPE scarab_workspace_warm_write_failed_total counter\nscarab_workspace_warm_write_failed_total ",
    );
    reveal_strlit("scarab_workspace_warm_write_failed_total ");
    let h = "# HELP scarab_workspace_warm_write_failed_total Snapshot writes that reached cold but not the workspace service (durable; a cache miss to come).\n# TYPE scarab_workspace_warm_write_failed_total counter\nscarab_workspace_warm_write_failed_total "@;
    let n = "scarab_workspace_warm_write_failed_total "@;
    assert(h.subrange(h.len() - n.len(), h.len() as int) =~= n);
}

proof fn cold_fallback_stands_under_its_name()
    ensures
        text::has_suffix(
            "# HELP scarab_workspace_cold_fallback_total Snapshot reads served from cold storage because the workspace service did not have them.\n# TYPE scarab_workspace_cold_fallback_total counter\nscarab_workspace_cold_fallback_total "@,
            "scarab_workspace_cold_fallback_total "@,
        ),
{
    reveal_strlit(
        "# HELP scarab_workspace_cold_fallback_total Snapshot reads served from cold storage because the workspace service did not have them.\n# TYPE scarab_workspace_cold_fallback_total counter\nscarab_workspace_cold_fallback_total ",
    );
    reveal_strlit("scarab_workspace_cold_fallback_total ");
    let h = "# HELP scarab_workspace_cold_fallback_total Snapshot reads served from cold storage because the workspace service did not have them.\n# TYPE scarab_workspace_cold_fallback_total counter\nscarab_workspace_cold_fallback_total "@;
    let n = "scarab_workspace_cold_fallback_total "@;
    assert(h.subrange(h.len() - n.len(), h.len() as int) =~= n);
}

proof fn warm_read_failed_stands_under_its_name()
    ensures
        text::has_suffix(
            "# HELP scarab_workspace_warm_read_failed_total Snapshot reads where the workspace service ERRORED and cold storage answered instead (ADR-0061 D1.6).\n# TYPE scarab_workspace_warm_read_failed_total counter\nscarab_workspace_warm_read_failed_total "@,
            "scarab_workspace_warm_read_failed_total "@,
        ),
{
    reveal_strlit(
        "# HELP scarab_workspace_warm_read_failed_total Snapshot reads where the workspace service ERRORED and cold storage answered instead (ADR-0061 D1.6).\n# TYPE scarab_workspace_warm_read_failed_total counter\nscarab_workspace_warm_read_failed_total ",
    );
    reveal_strlit("scarab_workspace_warm_read_failed_total ");
    let h = "# HELP scarab_workspace_warm_read_failed_total Snapshot reads where the workspace service ERRORED and cold storage answered instead (ADR-0061 D1.6).\n# TYPE scarab_workspace_warm_read_failed_total counter\nscarab_workspace_warm_read_failed_total "@;
    let n = "scarab_workspace_warm_read_failed_total "@;
    assert(h.subrange(h.len() - n.len(), h.len() as int) =~= n);
}

/// A scrape holds the lines of all statuses, the depth of the outbox, and at its end everything
/// that the process counted.
pub proof fn scrapes_hold_everything(counts: Seq<(String, i64)>, outbox_depth: i64, m: Metrics, t: TieredTotals)
    ensures
        text::contains(exposition(counts, outbox_depth, m, t), status_lines(counts)),
        text::contains(
            exposition(counts, outbox_depth, m, t),
            "scarab_outbox_depth "@ + text::signed_decimal(outbox_depth as int) + "\n"@,
        ),
        text::has_suffix(exposition(counts, outbox_depth, m, t), rendered(m, t)),
{
    let all = exposition(counts, outbox_depth, m, t);
    let first = "# HELP scarab_runs Current run count by status.\n# TYPE scarab_runs gauge\n"@;
    let lines = status_lines(counts);
    let second = "# HELP scarab_outbox_depth Undispatched outbox messages.\n# TYPE scarab_outbox_depth gauge\nscarab_outbox_depth "@;
    let name = "scarab_outbox_depth "@;
    let depth = text::signed_decimal(outbox_depth as int);
    reveal_strlit(
        "# HELP scarab_outbox_depth Undispatched outbox messages.\n# TYPE scarab_outbox_depth gauge\nscarab_outbox_depth ",
    );
    reveal_strlit("scarab_outbox_depth ");
    assert(second.subrange(second.len() - name.len(), second.len() as int) =~= name);
    assert(all.subrange(first.len() as int, first.len() as int + lines.len()) =~= lines);
    assert(text::occurs_at(all, lines, first.len() as int));
    let line = name + depth + "\n"@;
    let at = first.len() as int + lines.len() + second.len() - name.len();
    assert(all.subrange(at, at + line.len()) =~= line) by {
        assert forall|i: int| 0 <= i < name.len() implies all[at + i] == name[i] by {
            assert(second.subrange(second.len() - name.len(), second.len() as int)[i] == name[i]);
        }
    }
    assert(text::occurs_at(all, line, at));
    let tail = rendered(m, t);
    assert(all.subrange(all.len() - tail.len(), all.len() as int) =~= tail);
}

} // verus!
