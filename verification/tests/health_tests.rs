use deployment_status::{
    aggregate, degraded_status, evaluate, ContainerStatus, Deployment, Evaluation, Label, Pod,
    PodStatus, WaitingState,
};

fn label(key: &str, value: &str) -> Label {
    Label { key: key.to_string(), value: value.to_string() }
}

fn deployment(name: &str, replicas: i32, ready: i32, labels: Option<Vec<Label>>) -> Deployment {
    Deployment {
        name: name.to_string(),
        replicas: Some(replicas),
        ready_replicas: Some(ready),
        match_labels: labels,
    }
}

fn pod(labels: Vec<Label>, message: Option<&str>) -> Pod {
    let statuses = match message {
        Some(m) => vec![ContainerStatus {
            waiting: Some(WaitingState { message: Some(m.to_string()) }),
        }],
        None => vec![ContainerStatus { waiting: None }],
    };
    Pod { labels, status: Some(PodStatus { container_statuses: Some(statuses) }) }
}

#[test]
fn healthy_deployment_reports_without_query() {
    // Scenario: web with 3/3 ready yields a record with no diagnostics.
    let d = deployment("web", 3, 3, Some(vec![label("app", "web")]));
    match evaluate(&d) {
        Evaluation::Report(rec) => {
            assert_eq!(rec.name, "web");
            assert_eq!(rec.ready_replicas, 3);
            assert_eq!(rec.replicas, 3);
            assert!(rec.status_message.is_none());
        }
        _ => panic!("healthy deployment must be reported at once"),
    }
}

#[test]
fn absent_counts_read_as_zero() {
    let d = Deployment {
        name: "idle".to_string(),
        replicas: None,
        ready_replicas: None,
        match_labels: None,
    };
    match evaluate(&d) {
        Evaluation::Report(rec) => {
            assert_eq!(rec.ready_replicas, 0);
            assert_eq!(rec.replicas, 0);
            assert!(rec.status_message.is_none());
        }
        _ => panic!("0/0 is healthy"),
    }
}

#[test]
fn degraded_without_selector_is_skipped() {
    let d = deployment("api", 3, 1, None);
    assert!(matches!(evaluate(&d), Evaluation::Skip));
}

#[test]
fn degraded_with_empty_mapping_reports_without_query() {
    let d = deployment("api", 3, 1, Some(Vec::new()));
    match evaluate(&d) {
        Evaluation::Report(rec) => assert_eq!(rec.status_message, Some(Vec::new())),
        _ => panic!("an empty selector must not scope a pod query"),
    }
}

#[test]
fn degraded_with_labels_asks_for_pods() {
    let d = deployment("api", 3, 1, Some(vec![label("app", "api")]));
    match evaluate(&d) {
        Evaluation::QueryPods(sel) => assert_eq!(sel, "app=api"),
        _ => panic!("a degraded deployment with a selector needs a pod query"),
    }
}

#[test]
fn degraded_status_collects_and_dedupes() {
    let d = deployment("api", 3, 1, Some(vec![label("app", "api")]));
    let pods = vec![
        pod(vec![label("app", "api")], Some("CrashLoopBackOff")),
        pod(vec![label("app", "api")], None),
        pod(vec![label("app", "api")], Some("ImagePullBackOff")),
        pod(vec![label("app", "api")], Some("CrashLoopBackOff")),
    ];
    let rec = degraded_status(&d, &pods);
    assert_eq!(rec.name, "api");
    assert_eq!(rec.ready_replicas, 1);
    assert_eq!(rec.replicas, 3);
    assert_eq!(
        rec.status_message,
        Some(vec!["CrashLoopBackOff".to_string(), "ImagePullBackOff".to_string()])
    );
}

#[test]
fn scenario_healthy_web_zero_queries() {
    // A deployment web with replicas=3, readyReplicas=3: one record, no
    // diagnostics, and no pod query issued.
    let ds = vec![deployment("web", 3, 3, Some(vec![label("app", "web")]))];
    let pods = vec![pod(vec![label("app", "web")], Some("ImagePullBackOff"))];
    let (records, queries) = aggregate(&ds, &pods);
    assert_eq!(queries, 0);
    assert_eq!(records.len(), 1);
    assert_eq!(records[0].name, "web");
    assert_eq!(records[0].ready_replicas, 3);
    assert_eq!(records[0].replicas, 3);
    assert!(records[0].status_message.is_none());
}

#[test]
fn scenario_degraded_api_collects_matching_diagnostics() {
    // api with replicas=3, readyReplicas=1 and two matching pods, one of
    // which waits with a message.
    let ds = vec![deployment("api", 3, 1, Some(vec![label("app", "api")]))];
    let pods = vec![
        pod(vec![label("app", "api")], Some("ImagePullBackOff")),
        pod(vec![label("app", "api")], None),
    ];
    let (records, queries) = aggregate(&ds, &pods);
    assert_eq!(queries, 1);
    assert_eq!(records.len(), 1);
    assert_eq!(records[0].name, "api");
    assert_eq!(records[0].ready_replicas, 1);
    assert_eq!(records[0].replicas, 3);
    assert_eq!(records[0].status_message, Some(vec!["ImagePullBackOff".to_string()]));
}

#[test]
fn scenario_identical_messages_deduplicated() {
    // Both pods report the identical message: one entry remains.
    let ds = vec![deployment("api", 3, 1, Some(vec![label("app", "api")]))];
    let pods = vec![
        pod(vec![label("app", "api")], Some("CrashLoopBackOff")),
        pod(vec![label("app", "api")], Some("CrashLoopBackOff")),
    ];
    let (records, _) = aggregate(&ds, &pods);
    assert_eq!(records.len(), 1);
    assert_eq!(records[0].status_message, Some(vec!["CrashLoopBackOff".to_string()]));
}

#[test]
fn scenario_degraded_without_selector_left_out() {
    // A degraded deployment with no selector spec at all is absent from the
    // output entirely.
    let ds = vec![
        deployment("web", 2, 2, Some(vec![label("app", "web")])),
        deployment("mystery", 3, 1, None),
    ];
    let (records, queries) = aggregate(&ds, &Vec::new());
    assert_eq!(queries, 0);
    assert_eq!(records.len(), 1);
    assert_eq!(records[0].name, "web");
}

#[test]
fn reserved_prefix_never_reported() {
    // Platform-internal deployments stay out of the report, degraded or not.
    let ds = vec![
        deployment("kube-dns", 3, 1, Some(vec![label("app", "dns")])),
        deployment("kube-proxy", 2, 2, None),
        deployment("shop", 2, 2, None),
    ];
    let pods = vec![pod(vec![label("app", "dns")], Some("CrashLoopBackOff"))];
    let (records, queries) = aggregate(&ds, &pods);
    assert_eq!(queries, 0);
    assert_eq!(records.len(), 1);
    assert_eq!(records[0].name, "shop");
}

#[test]
fn selector_scopes_which_pods_contribute() {
    let ds = vec![deployment("api", 3, 1, Some(vec![label("app", "api")]))];
    let pods = vec![
        pod(vec![label("app", "other")], Some("Unrelated")),
        pod(vec![label("app", "api"), label("tier", "backend")], Some("ImagePullBackOff")),
    ];
    let (records, _) = aggregate(&ds, &pods);
    assert_eq!(records[0].status_message, Some(vec!["ImagePullBackOff".to_string()]));
}

#[test]
fn records_keep_listing_order() {
    let ds = vec![
        deployment("a", 1, 1, None),
        deployment("b", 2, 1, Some(vec![label("app", "b")])),
        deployment("c", 1, 1, None),
    ];
    let (records, queries) = aggregate(&ds, &Vec::new());
    assert_eq!(queries, 1);
    let names: Vec<&str> = records.iter().map(|r| r.name.as_str()).collect();
    assert_eq!(names, vec!["a", "b", "c"]);
    assert_eq!(records[1].status_message, Some(Vec::new()));
}
