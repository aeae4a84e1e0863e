use svccomp::model::{CompileError, Service, ServiceType};
use svccomp::resolve::{resolve, transitive_closure};

fn plain_service(deps: Option<Vec<String>>) -> Service {
    Service {
        type_: ServiceType::OneShot,
        up: None,
        run: None,
        finish: None,
        consumer_for: None,
        producer_for: None,
        pipeline_name: None,
        dependencies: deps,
        extensions: None,
    }
}

fn graph(entries: Vec<(&str, Vec<&str>)>) -> Vec<(String, Service)> {
    entries
        .into_iter()
        .map(|(n, ds)| {
            let deps = if ds.is_empty() {
                None
            } else {
                Some(ds.into_iter().map(|d| d.to_string()).collect())
            };
            (n.to_string(), plain_service(deps))
        })
        .collect()
}

fn sorted(mut v: Vec<String>) -> Vec<String> {
    v.sort();
    v
}

#[test]
fn resolve_without_request_returns_all_declared() {
    let g = graph(vec![("a", vec!["b"]), ("b", vec![]), ("c", vec![])]);
    let r = resolve(&g, None).unwrap();
    assert_eq!(sorted(r), vec!["a".to_string(), "b".to_string(), "c".to_string()]);
}

#[test]
fn resolve_without_request_ignores_absent_dependency_targets() {
    let g = graph(vec![("a", vec!["ghost-dep"])]);
    let r = resolve(&g, None).unwrap();
    assert_eq!(r, vec!["a".to_string()]);
}

#[test]
fn resolve_with_empty_request_returns_all_declared() {
    let g = graph(vec![("a", vec![]), ("b", vec![])]);
    let r = resolve(&g, Some(Vec::new())).unwrap();
    assert_eq!(sorted(r), vec!["a".to_string(), "b".to_string()]);
}

#[test]
fn resolve_request_is_closed_over_dependencies() {
    let g = graph(vec![
        ("a", vec!["b"]),
        ("b", vec!["c"]),
        ("c", vec![]),
        ("d", vec![]),
    ]);
    let r = resolve(&g, Some(vec!["a".to_string()])).unwrap();
    let r = sorted(r);
    assert_eq!(r, vec!["a".to_string(), "b".to_string(), "c".to_string()]);
    assert!(!r.contains(&"d".to_string()));
}

#[test]
fn resolve_request_members_are_in_result() {
    let g = graph(vec![("a", vec![]), ("b", vec![]), ("c", vec![])]);
    let r = resolve(&g, Some(vec!["a".to_string(), "c".to_string()])).unwrap();
    assert!(r.contains(&"a".to_string()));
    assert!(r.contains(&"c".to_string()));
    assert!(!r.contains(&"b".to_string()));
}

#[test]
fn resolve_unknown_request_fails_first() {
    let g = graph(vec![("a", vec![])]);
    let r = resolve(&g, Some(vec!["a".to_string(), "nope".to_string()]));
    match r {
        Err(CompileError::UnknownService(n)) => assert_eq!(n, "nope"),
        _ => panic!("expected an unknown-service error"),
    }
}

#[test]
fn resolve_cyclic_graph_terminates() {
    let g = graph(vec![("a", vec!["b"]), ("b", vec!["a"]), ("c", vec![])]);
    let r = sorted(resolve(&g, Some(vec!["a".to_string()])).unwrap());
    assert_eq!(r, vec!["a".to_string(), "b".to_string()]);
}

#[test]
fn resolve_self_cycle_terminates() {
    let g = graph(vec![("a", vec!["a"])]);
    let r = resolve(&g, Some(vec!["a".to_string()])).unwrap();
    assert_eq!(r, vec!["a".to_string()]);
}

#[test]
fn resolve_tolerates_absent_dependency_target() {
    let g = graph(vec![("a", vec!["x"])]);
    let r = sorted(resolve(&g, Some(vec!["a".to_string()])).unwrap());
    assert_eq!(r, vec!["a".to_string(), "x".to_string()]);
}

#[test]
fn transitive_closure_has_no_duplicates() {
    let g = graph(vec![("a", vec!["b", "b"]), ("b", vec!["a"])]);
    let r = transitive_closure(&g, Some(vec!["a".to_string(), "a".to_string()]));
    let mut s = r.clone();
    s.sort();
    s.dedup();
    assert_eq!(sorted(r), s);
}
