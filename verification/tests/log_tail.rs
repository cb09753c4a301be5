//! Tailing the logs of steps.

use scarab_server::log_tail::{
    classify_tail_error, is_pod_not_ready, pump_log_stream, service_resource, sidecar_container,
    sidecar_resource, sidecar_stream_key, step_resource, ClaimAction, Fence, LogTailer,
    TailErrorClass, NOT_READY_GRACE, RETRY_BACKOFF, STUCK_WARN_INTERVAL,
};

const INITIALIZING: &str = "executor error: exec error: ApiError: container \"step\" in pod \
                            \"scarab-check-a1-7893ca80\" is waiting to start: PodInitializing: \
                            BadRequest";

#[test]
fn pre_start_states_are_quiet() {
    assert!(is_pod_not_ready(INITIALIZING));
    assert!(is_pod_not_ready("container \"step\" is waiting to start: ContainerCreating"));
}

#[test]
fn genuine_errors_still_warn() {
    assert!(!is_pod_not_ready("ApiError: pods \"x\" is forbidden: cannot get pods/log"));
    assert!(!is_pod_not_ready("connection refused"));
    assert!(!is_pod_not_ready("container \"step\" is waiting to start: ImagePullBackOff"));
}

#[test]
fn a_slow_start_stays_quiet_inside_the_grace_window() {
    assert_eq!(classify_tail_error(INITIALIZING, 0, None), TailErrorClass::Quiet);
    assert_eq!(
        classify_tail_error(INITIALIZING, NOT_READY_GRACE - 1_000, None),
        TailErrorClass::Quiet
    );
}

#[test]
fn a_pod_stuck_past_the_grace_window_warns() {
    assert_eq!(
        classify_tail_error(INITIALIZING, NOT_READY_GRACE, None),
        TailErrorClass::StuckNotReady
    );
}

#[test]
fn a_stuck_pod_is_warned_about_periodically_not_every_retry() {
    let stuck = NOT_READY_GRACE + 600_000;
    assert_eq!(
        classify_tail_error(INITIALIZING, stuck, Some(3_000)),
        TailErrorClass::Quiet,
        "just warned — the next retry stays quiet"
    );
    assert_eq!(
        classify_tail_error(INITIALIZING, stuck, Some(STUCK_WARN_INTERVAL)),
        TailErrorClass::StuckNotReady,
        "still stuck a minute later — restate it so it stays visible"
    );
}

#[test]
fn a_genuine_failure_warns_immediately() {
    assert_eq!(
        classify_tail_error("ApiError: pods \"x\" is forbidden: cannot get pods/log", 0, None),
        TailErrorClass::Failed
    );
    assert_eq!(
        classify_tail_error(
            "container \"step\" is waiting to start: ImagePullBackOff",
            0,
            Some(1_000)
        ),
        TailErrorClass::Failed
    );
}

fn fence() -> Fence {
    Fence { run: "r".to_string(), step: "s".to_string(), attempt: "a1".to_string() }
}

#[test]
fn one_tail_runs_per_fence_and_a_drained_one_never_again() {
    let mut t = LogTailer::new();
    assert!(t.ensure(&fence(), 0));
    assert!(!t.ensure(&fence(), 1));
    assert!(matches!(t.claimed(&fence(), "me", Some("me"), 1), ClaimAction::Tail { renew_every_ms: 15_000 }));
    t.drained(&fence());
    assert!(!t.ensure(&fence(), 1_000_000));
}

#[test]
fn a_broken_tail_backs_off_before_it_is_tried_again() {
    let mut t = LogTailer::new();
    assert!(t.ensure(&fence(), 0));
    let (class, _) = t.broke(&fence(), "connection refused", 100);
    assert_eq!(class, TailErrorClass::Failed);
    assert!(!t.ensure(&fence(), 100 + RETRY_BACKOFF - 1));
    assert!(t.ensure(&fence(), 100 + RETRY_BACKOFF));
}

#[test]
fn a_stuck_pod_surfaces_after_the_grace_window() {
    let mut t = LogTailer::new();
    assert!(t.ensure(&fence(), 0));
    let (first, _) = t.broke(&fence(), INITIALIZING, 0);
    assert_eq!(first, TailErrorClass::Quiet);
    assert!(t.ensure(&fence(), NOT_READY_GRACE));
    let (later, waited) = t.broke(&fence(), INITIALIZING, NOT_READY_GRACE);
    assert_eq!(later, TailErrorClass::StuckNotReady);
    assert_eq!(waited, NOT_READY_GRACE);
}

#[test]
fn resources_are_named_by_what_they_tail() {
    assert_eq!(step_resource(&fence()), "tail:r:s:a1");
    assert_eq!(service_resource("r", "db", "take-0"), "tail:r:service:db:take-0");
    assert_eq!(sidecar_resource("r", "s", 2, "a1"), "tail:r:s:sidecar-2:a1");
    assert_eq!(sidecar_container(2), "service-2");
    assert_eq!(sidecar_stream_key("s", 2), "s::service-2");
}

#[test]
fn empty_chunks_are_not_appended() {
    assert_eq!(pump_log_stream(5, &vec![]), (false, 5));
    assert_eq!(pump_log_stream(5, &vec![1, 2]), (true, 7));
}
