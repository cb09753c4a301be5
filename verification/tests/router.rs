//! The HTTP surface.

use scarab_server::router::{
    declared_groups, is_documented, readyz, request_id, routes, tag_for_path, tag_groups, ui_content_type,
    ui_segments, Handler, Method, OPERATIONS,
};

#[test]
fn no_two_routes_share_a_method_and_path() {
    let table = routes();
    assert_eq!(table.len(), OPERATIONS + 1);
    for (i, a) in table.iter().enumerate() {
        for b in &table[i + 1..] {
            assert!(a.method != b.method || a.path != b.path, "{} twice", a.path);
        }
    }
}

#[test]
fn a_rerun_is_still_reached_by_its_old_name() {
    let last = *routes().last().unwrap();
    assert_eq!(last.path, "/v1/runs/{id}/steps/{step}/restart");
    assert_eq!(last.method, Method::Post);
    assert_eq!(last.handler, Handler::RerunStep);
    assert_eq!(Handler::RerunStep.path(), "/v1/runs/{id}/steps/{step}/rerun");
    assert_eq!(Handler::PutEnvironment.method(), Method::Put);
    // Neither that way nor the document itself is in the document.
    let hidden: Vec<&str> = routes().iter().filter(|r| !is_documented(r)).map(|r| r.path).collect();
    assert_eq!(hidden, vec!["/openapi.json", "/v1/runs/{id}/steps/{step}/restart"]);
}

#[test]
fn operation_tags_cover_every_operation() {
    for r in routes() {
        if r.handler != Handler::Openapi {
            assert!(tag_for_path(r.path).is_some(), "{} is untagged", r.path);
        }
    }
    assert_eq!(tag_for_path("/v1/repos/{org}/{repo}/bindings/import"), Some("Auth & Identity"));
    assert_eq!(tag_for_path("/v1/repos/{org}/{repo}/runs"), Some("Runs"));
    assert_eq!(tag_for_path("/v1/repos/{org}/{repo}/refs"), Some("Repositories"));
    assert_eq!(tag_for_path("/openapi.json"), None);
}

#[test]
fn only_groups_in_use_are_declared_in_display_order() {
    let names = |paths: Vec<&str>| -> Vec<&'static str> {
        let owned: Vec<String> = paths.into_iter().map(|p| p.to_string()).collect();
        declared_groups(&owned).into_iter().map(|g| g.name).collect()
    };
    assert_eq!(names(vec!["/healthz", "/v1/runs"]), vec!["Runs", "System"]);
    assert!(names(vec!["/nowhere"]).is_empty());
    assert_eq!(tag_groups().len(), 8);
    let runs = declared_groups(&vec!["/v1/runs".to_string()]);
    assert_eq!(
        runs[0].description,
        "Launch, read, cancel, rerun and retry Runs; their events, logs, results, workspace, artifacts and gates."
    );
    assert_eq!(tag_groups()[1].description.split(',').next(), Some("The governed repos Scarab knows about"));
}

#[test]
fn ui_paths_never_leave_the_directory() {
    assert_eq!(ui_segments("/assets/app.js"), vec!["assets".to_string(), "app.js".to_string()]);
    assert_eq!(
        ui_segments("//../a/./..//b\\c/d"),
        vec!["a".to_string(), "d".to_string()]
    );
    assert!(ui_segments("/").is_empty());
    assert_eq!(ui_content_type("html"), "text/html; charset=utf-8");
    assert_eq!(ui_content_type("woff2"), "font/woff2");
    assert_eq!(ui_content_type("exe"), "application/octet-stream");
}

#[test]
fn a_request_keeps_the_id_it_brought() {
    assert_eq!(request_id(Some("mine".into())), "mine");
    let fresh = request_id(None);
    assert_eq!(fresh.len(), 36);
    assert_eq!(fresh.as_bytes()[14], b'4');
    assert_ne!(fresh, request_id(None));
}

#[test]
fn readiness_names_the_first_failure() {
    assert_eq!(readyz(None, None), (200, "ready".to_string()));
    assert_eq!(readyz(Some("down".into()), Some("x".into())), (503, "db: down".to_string()));
    assert_eq!(readyz(None, Some("x".into())), (503, "store: x".to_string()));
}
