use deployment_status::{label_selector, Deployment, Label};

fn label(key: &str, value: &str) -> Label {
    Label { key: key.to_string(), value: value.to_string() }
}

fn deployment_with_labels(labels: Option<Vec<Label>>) -> Deployment {
    Deployment {
        name: "api".to_string(),
        replicas: Some(3),
        ready_replicas: Some(1),
        match_labels: labels,
    }
}

#[test]
fn no_selector_spec_gives_no_selector() {
    let d = deployment_with_labels(None);
    assert!(label_selector(&d).is_none());
}

#[test]
fn empty_mapping_gives_empty_string() {
    let d = deployment_with_labels(Some(Vec::new()));
    assert_eq!(label_selector(&d), Some(String::new()));
}

#[test]
fn single_pair() {
    let d = deployment_with_labels(Some(vec![label("app", "api")]));
    assert_eq!(label_selector(&d), Some("app=api".to_string()));
}

#[test]
fn pairs_join_with_commas_sorted_by_key() {
    let d = deployment_with_labels(Some(vec![
        label("tier", "backend"),
        label("app", "api"),
        label("env", "prod"),
    ]));
    assert_eq!(label_selector(&d), Some("app=api,env=prod,tier=backend".to_string()));
}

#[test]
fn deterministic_over_iteration_order() {
    let forward = deployment_with_labels(Some(vec![
        label("app", "api"),
        label("env", "prod"),
        label("tier", "backend"),
    ]));
    let backward = deployment_with_labels(Some(vec![
        label("tier", "backend"),
        label("env", "prod"),
        label("app", "api"),
    ]));
    assert_eq!(label_selector(&forward), label_selector(&backward));
}

#[test]
fn equal_keys_sorted_by_value() {
    let one = deployment_with_labels(Some(vec![label("app", "b"), label("app", "a")]));
    let two = deployment_with_labels(Some(vec![label("app", "a"), label("app", "b")]));
    assert_eq!(label_selector(&one), Some("app=a,app=b".to_string()));
    assert_eq!(label_selector(&one), label_selector(&two));
}
