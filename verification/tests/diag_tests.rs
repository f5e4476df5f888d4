use deployment_status::{pod_status_message, ContainerStatus, Pod, PodStatus, WaitingState};

fn waiting(message: Option<&str>) -> ContainerStatus {
    ContainerStatus { waiting: Some(WaitingState { message: message.map(|m| m.to_string()) }) }
}

fn running() -> ContainerStatus {
    ContainerStatus { waiting: None }
}

fn pod_with(statuses: Option<Vec<ContainerStatus>>) -> Pod {
    Pod { labels: Vec::new(), status: statuses.map(|s| PodStatus { container_statuses: Some(s) }) }
}

#[test]
fn no_status_gives_no_diagnostic() {
    let pod = Pod { labels: Vec::new(), status: None };
    assert!(pod_status_message(&pod).is_none());
}

#[test]
fn no_container_statuses_gives_no_diagnostic() {
    let pod = Pod { labels: Vec::new(), status: Some(PodStatus { container_statuses: None }) };
    assert!(pod_status_message(&pod).is_none());
}

#[test]
fn all_containers_running_gives_no_diagnostic() {
    let pod = pod_with(Some(vec![running(), running()]));
    assert!(pod_status_message(&pod).is_none());
}

#[test]
fn waiting_without_message_gives_no_diagnostic() {
    let pod = pod_with(Some(vec![waiting(None)]));
    assert!(pod_status_message(&pod).is_none());
}

#[test]
fn empty_message_is_not_a_diagnostic() {
    let pod = pod_with(Some(vec![waiting(Some(""))]));
    assert!(pod_status_message(&pod).is_none());
}

#[test]
fn single_waiting_message_is_returned_exactly() {
    let pod = pod_with(Some(vec![waiting(Some("ImagePullBackOff"))]));
    assert_eq!(pod_status_message(&pod), Some("ImagePullBackOff".to_string()));
}

#[test]
fn messages_join_with_newline_in_container_order() {
    let pod = pod_with(Some(vec![
        waiting(Some("ImagePullBackOff")),
        running(),
        waiting(Some("CrashLoopBackOff")),
    ]));
    assert_eq!(
        pod_status_message(&pod),
        Some("ImagePullBackOff\nCrashLoopBackOff".to_string())
    );
}
