//! Redaction, stored chunks and the feeds that read them.

use scarab_server::errors::ApiError;
use scarab_server::log_view::{
    follows, get_logs, get_service_logs, get_services, get_step_logs, read_step, select_attempts, service_take,
    FeedEvent, LogNext, LogOutcome, LogStream, LogTurn, RunService, StepLogsQuery, StreamRead,
};
use scarab_server::logs::{object_key, read_all, read_from, replace_bytes, LogChunkMeta, LogService};
use scarab_server::persist::DeployContext;
use scarab_server::runs::{Attempt, StepRecord, StepStatus};
use scarab_server::step_secrets::{
    attempt_claims, launch_scope, resolve_step_secrets, subject_environment,
};
use scarab_server::admission::SecretScope;

fn bytes(s: &str) -> Vec<u8> {
    s.as_bytes().to_vec()
}

#[test]
fn occurrences_are_replaced_from_the_left() {
    assert_eq!(replace_bytes(&bytes("aXbXc"), &bytes("X"), &bytes("--")), bytes("a--b--c"));
    assert_eq!(replace_bytes(&bytes("aaa"), &bytes("aa"), &bytes("b")), bytes("ba"));
    assert_eq!(replace_bytes(&bytes("abc"), &bytes("zzzz"), &bytes("b")), bytes("abc"));
}

#[test]
fn registered_secrets_are_masked() {
    let mut logs = LogService::new();
    logs.register_secret(&bytes("hunter2"));
    logs.register_secret(&bytes(""));
    logs.register_secret(&bytes("hunter2"));
    assert_eq!(logs.secrets.len(), 1);
    assert_eq!(logs.redact(&bytes("pw=hunter2;hunter2")), bytes("pw=***;***"));
    assert_eq!(logs.redact(&bytes("nothing here")), bytes("nothing here"));
}

#[test]
fn replaying_the_chunks_gives_back_the_redacted_stream() {
    let mut logs = LogService::new();
    logs.register_secret(&bytes("s3cret"));
    let mut index: Vec<LogChunkMeta> = Vec::new();
    let mut store: Vec<(String, Vec<u8>)> = Vec::new();
    for chunk in ["first s3cret\n", "second\n", "third\n"] {
        let (p, held) = logs.append("r", "s", "a1", &vec![], &bytes(chunk), &index).unwrap();
        assert!(held.is_empty());
        assert_ne!(p.stored, p.streamed);
        store.push((p.meta.object_key.clone(), p.stored));
        index.push(p.meta);
    }
    assert_eq!(index[0].seq, 0);
    assert_eq!(index[1].byte_offset, index[0].len);
    let (keys, next) = read_from(&index, 0);
    assert_eq!(next, 3);
    let blobs: Vec<Vec<u8>> =
        keys.iter().map(|k| store.iter().find(|(n, _)| n == k).unwrap().1.clone()).collect();
    assert_eq!(read_all(&blobs).unwrap(), bytes("first ***\nsecond\nthird\n"));
    let (rest, _) = read_from(&index, 2);
    assert_eq!(rest.len(), 1);
    // A read from any number, and one from where it ended, give what one read gives.
    let earlier = vec![LogChunkMeta { object_key: index[0].object_key.clone(), ..index[0] }, LogChunkMeta {
        object_key: index[1].object_key.clone(),
        ..index[1]
    }];
    let (mut joined, reached) = read_from(&earlier, 1);
    assert_eq!(reached, 2);
    joined.extend(read_from(&index, reached).0);
    assert_eq!(joined, read_from(&index, 1).0);
    assert!(object_key("r", "s", "a1", 0) != object_key("r", "s", "a1", 1));
}

/// Appends the chunks and ends the stream; what was streamed with each, and what a read gives back.
fn pumped(logs: &LogService, chunks: &[&str]) -> (Vec<String>, String) {
    let mut tail: Vec<u8> = Vec::new();
    let mut index: Vec<LogChunkMeta> = Vec::new();
    let mut blobs: Vec<Vec<u8>> = Vec::new();
    let mut streamed: Vec<String> = Vec::new();
    for chunk in chunks {
        let (p, held) = logs.append("r", "s", "a1", &tail, &bytes(chunk), &index).unwrap();
        tail = held;
        streamed.push(String::from_utf8(p.streamed.clone()).unwrap());
        if p.adds() {
            blobs.push(p.stored);
            index.push(p.meta);
        }
    }
    let p = logs.finish("r", "s", "a1", &tail, &index).unwrap();
    streamed.push(String::from_utf8(p.streamed.clone()).unwrap());
    if p.adds() {
        assert_eq!(p.meta.seq, index.len() as u64);
        blobs.push(p.stored);
    }
    (streamed, String::from_utf8(read_all(&blobs).unwrap()).unwrap())
}

#[test]
fn a_secret_split_over_chunks_is_masked() {
    let mut logs = LogService::new();
    logs.register_secret(&bytes("hunter2"));
    let (streamed, read) = pumped(&logs, &["hun", "ter2"]);
    assert_eq!(streamed, vec!["", "***", ""]);
    assert_eq!(read, "***");
    let (streamed, read) = pumped(&logs, &["pw=h", "u", "nter", "2;", "hunter2"]);
    assert_eq!(streamed, vec!["pw=", "", "", "***;", "***", ""]);
    assert_eq!(read, "pw=***;***");
    // Byte by byte.
    let (_, read) = pumped(&logs, &["h", "u", "n", "t", "e", "r", "2", "h", "u", "n", "t", "e", "r", "2"]);
    assert_eq!(read, "******");
}

#[test]
fn what_is_held_back_comes_out_where_it_is_no_secret() {
    let mut logs = LogService::new();
    logs.register_secret(&bytes("hunter2"));
    logs.register_secret(&bytes("aab"));
    let (streamed, read) = pumped(&logs, &["a hunt", "ing dog", " hun"]);
    assert_eq!(streamed, vec!["a ", "hunting dog", " ", "hun"]);
    assert_eq!(read, "a hunting dog hun");
    // The longest end that may begin a value is held back, and no more.
    let (streamed, read) = pumped(&logs, &["xaa", "aa", "b"]);
    assert_eq!(streamed, vec!["x", "aa", "***", ""]);
    assert_eq!(read, "xaa***");
    // Without secrets nothing is held back.
    let (streamed, _) = pumped(&LogService::new(), &["hun", "ter2"]);
    assert_eq!(streamed, vec!["hun", "ter2", ""]);
}

#[test]
fn a_secret_is_masked_from_the_chunk_on_with_which_it_is_registered() {
    let mut logs = LogService::new();
    logs.register_secret(&bytes("key-1"));
    let (p, tail) = logs.append("r", "s", "a1", &vec![], &bytes("ke"), &vec![]).unwrap();
    assert!(!p.adds());
    logs.register_secret(&bytes("key-2"));
    let (p, tail) = logs.append("r", "s", "a1", &tail, &bytes("y-2 key-"), &vec![]).unwrap();
    assert_eq!(p.streamed, bytes("*** "));
    assert_eq!(tail, bytes("key-"));
    let (p, _) = logs.append("r", "s", "a1", &tail, &bytes("1"), &vec![]).unwrap();
    assert_eq!(p.streamed, bytes("***"));
}

#[test]
fn a_body_that_is_no_gzip_is_an_error() {
    let e = read_all(&vec![bytes("plain")]).unwrap_err();
    assert!(!e.message().is_empty());
}

#[test]
fn attempts_are_selected_by_name_or_all() {
    let all = vec!["a1".to_string(), "a2".to_string()];
    assert_eq!(select_attempts(&all, &None).unwrap(), all);
    assert_eq!(select_attempts(&all, &Some("a2".into())).unwrap(), vec!["a2".to_string()]);
    assert!(matches!(select_attempts(&all, &Some("a3".into())), Err(ApiError::NotFound)));
    assert_eq!(read_step("s", None), "s");
    assert_eq!(read_step("s", Some(1)), "s::service-1");
    assert!(!follows(true, &all, &all));
}

fn step(id: &str, attempts: &[&str]) -> StepRecord {
    StepRecord {
        id: id.into(),
        status: StepStatus::Running,
        attempts: attempts
            .iter()
            .map(|a| Attempt { id: (*a).into(), started_at: 0, failure: None, outcome: "running".into() })
            .collect(),
        needs: vec![],
        gate_kind: None,
        services: vec![],
        uses: vec![],
    }
}

fn read(body: &str, next: u64) -> LogOutcome {
    LogOutcome::Read(Some(StreamRead { body: bytes(body), next }))
}

fn reads(turn: &LogTurn) -> (String, String, u64) {
    match &turn.next {
        LogNext::Read { stream, from } => (stream.step.clone(), stream.attempt.clone(), *from),
        other => panic!("{other:?}"),
    }
}

fn sends(turn: &LogTurn) -> Option<Vec<u8>> {
    match &turn.send {
        Some(FeedEvent::Data(d)) => Some(d.clone()),
        _ => None,
    }
}

#[test]
fn a_view_reads_each_chunk_once_and_ends_one_poll_after_the_run() {
    let (s, t) = get_logs(false, &vec![step("s", &["a1"])]);
    assert_eq!(reads(&t), ("s".into(), "a1".into(), 0));
    let (s, t) = s.step(read("old", 2));
    assert_eq!(sends(&t), Some(bytes("old")));
    assert!(matches!(t.next, LogNext::Wait));
    let steps = vec![step("s", &["a1", "a2"]), step("t", &["b1"])];
    let (s, t) = s.step(LogOutcome::Waited { terminal: false, steps });
    assert_eq!(reads(&t), ("s".into(), "a1".into(), 2));
    let (s, t) = s.step(read("new", 3));
    assert_eq!(reads(&t), ("s".into(), "a2".into(), 0));
    let (s, t) = s.step(LogOutcome::Read(None));
    assert_eq!(reads(&t), ("t".into(), "b1".into(), 0));
    let (s, t) = s.step(read("er", 1));
    assert_eq!(sends(&t), Some(bytes("newer")));
    assert!(matches!(t.next, LogNext::Wait));
    let (s, t) = s.step(LogOutcome::Waited { terminal: true, steps: vec![step("t", &["b1"])] });
    assert_eq!(reads(&t), ("t".into(), "b1".into(), 1));
    let (_, t) = s.step(read("", 1));
    assert!(matches!(t.send, Some(FeedEvent::Keepalive)));
    assert!(matches!(t.next, LogNext::Close));
}

#[test]
fn a_step_view_shows_the_asked_attempt_of_the_asked_stream() {
    let steps = vec![step("s", &["a1", "a2"])];
    let q = |attempt: Option<&str>, sidecar| StepLogsQuery { attempt: attempt.map(String::from), sidecar };
    assert!(matches!(get_step_logs(false, &steps, "x", &q(None, None)), Err(ApiError::NotFound)));
    assert!(matches!(get_step_logs(false, &steps, "s", &q(Some("a9"), None)), Err(ApiError::NotFound)));

    // An earlier attempt never changes, so the view ends with its replay.
    let (s, t) = get_step_logs(false, &steps, "s", &q(Some("a1"), Some(0))).unwrap();
    assert_eq!(reads(&t), ("s::service-0".into(), "a1".into(), 0));
    let (_, t) = s.step(read("", 4));
    assert!(t.send.is_none());
    assert!(matches!(t.next, LogNext::Close));

    // With the latest attempt shown the view goes on, over the same attempts.
    let (s, t) = get_step_logs(false, &steps, "s", &q(None, None)).unwrap();
    assert_eq!(reads(&t), ("s".into(), "a1".into(), 0));
    let (s, t) = s.step(LogOutcome::Read(None));
    assert_eq!(reads(&t), ("s".into(), "a2".into(), 0));
    let (s, t) = s.step(read("x", 1));
    assert!(matches!(t.next, LogNext::Wait));
    let later = vec![step("s", &["a1", "a2", "a3"])];
    let (s, t) = s.step(LogOutcome::Waited { terminal: false, steps: later });
    assert_eq!(reads(&t), ("s".into(), "a1".into(), 0));
    let (s, t) = s.step(read("", 0));
    assert_eq!(reads(&t), ("s".into(), "a2".into(), 1));
    let (_, t) = s.step(read("", 1));
    assert!(matches!(t.next, LogNext::Wait));
}

#[test]
fn a_service_view_follows_one_stream() {
    let stream = || LogStream { step: "k".into(), attempt: "v".into() };
    let (s, t) = get_service_logs(true, stream());
    assert_eq!(reads(&t), ("k".into(), "v".into(), 0));
    let (_, t) = s.step(read("log", 1));
    assert_eq!(sends(&t), Some(bytes("log")));
    assert!(matches!(t.next, LogNext::Close));
    let (s, _) = get_service_logs(false, stream());
    let (_, t) = s.step(read("log", 1));
    assert!(matches!(t.next, LogNext::Wait));
}

fn service(name: &str, take: i64) -> RunService {
    RunService { name: name.into(), status: "ready".into(), take, created_at: 5 }
}

#[test]
fn services_are_those_of_the_latest_take() {
    let all = vec![service("db", 0), service("db", 1), service("cache", 1)];
    let shown = get_services(&all);
    let names: Vec<&str> = shown.iter().map(|s| s.name.as_str()).collect();
    assert_eq!(names, vec!["cache", "db"]);
    assert!(get_services(&vec![]).is_empty());
    assert!(shown.iter().all(|s| s.take == 1));
    assert_eq!(service_take(&all, "db", None).unwrap(), 1);
    assert_eq!(service_take(&all, "db", Some(0)).unwrap(), 0);
    assert!(matches!(service_take(&all, "db", Some(7)), Err(ApiError::NotFound)));
    assert!(matches!(service_take(&all, "mq", None), Err(ApiError::NotFound)));
}

#[test]
fn resolved_secrets_are_masked_before_they_are_used() {
    let mut logs = LogService::new();
    let mut s = resolve_step_secrets(vec!["TOKEN".into(), "BIN".into()], false);
    assert_eq!(s.wants(), Some(&"TOKEN".to_string()));
    s.resolved(&mut logs, &bytes("abc123"));
    assert_eq!(s.wants(), Some(&"BIN".to_string()));
    s.resolved(&mut logs, &vec![0x61, 0xff, 0x62]);
    assert_eq!(s.wants(), None);
    assert_eq!(logs.redact(&bytes("x abc123")), bytes("x ***"));
    assert_eq!(
        s.into_env(),
        vec![
            ("TOKEN".to_string(), "abc123".to_string()),
            ("BIN".to_string(), "a\u{fffd}b".to_string())
        ]
    );
}

#[test]
fn a_locked_out_run_reads_no_secret() {
    let s = resolve_step_secrets(vec!["TOKEN".into()], true);
    assert_eq!(s.wants(), None);
    assert!(s.into_env().is_empty());
}

fn target(locked_out: bool) -> DeployContext {
    DeployContext {
        org: "acme".into(),
        project: "web".into(),
        environment: "prod".into(),
        git_ref: "refs/heads/main".into(),
        locked_out,
    }
}

#[test]
fn a_launch_looks_secrets_up_where_it_deploys() {
    assert!(launch_scope(false, Some(target(false))).is_none());
    assert!(launch_scope(true, None).is_none());
    assert!(matches!(
        launch_scope(true, Some(target(false))),
        Some(SecretScope::Environment { org, repo, environment })
            if org == "acme" && repo == "web" && environment == "prod"
    ));
    assert_eq!(subject_environment(&target(false)), "prod");
    assert_eq!(subject_environment(&target(true)), "none");
    let c = attempt_claims(
        "https://ci.example",
        "aud",
        &target(false),
        "sub".into(),
        "r1",
        None,
        1_000_500,
    );
    assert_eq!(c.expires_at, 1_000 + 900);
    assert_eq!(c.event, "deploy");
    assert_eq!(c.attempt, "");
}
