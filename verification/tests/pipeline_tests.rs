use svccomp::bundle::{bundle_entries, classify, BundleDecision};
use svccomp::compile::compile;
use svccomp::driver::drive;
use svccomp::logterm::logterm_config;
use svccomp::model::{Extensions, LogExt, RestartExt, Service, ServiceType};

fn record(type_: ServiceType) -> Service {
    Service {
        type_,
        up: None,
        run: None,
        finish: None,
        consumer_for: None,
        producer_for: None,
        pipeline_name: None,
        dependencies: None,
        extensions: None,
    }
}

#[test]
fn fixed_point_longrun_log_and_restart() {
    let mut web = record(ServiceType::LongRun);
    web.extensions = Some(Extensions {
        log: Some(LogExt { dir: "/var/log/web".to_string() }),
        restart: Some(RestartExt { on_failure: false }),
    });
    let services = vec![("web".to_string(), web, false)];
    let enabled = vec!["web".to_string()];
    let out = drive(services, &enabled, &"/out".to_string()).unwrap();

    assert_eq!(out.emitted.len(), 2);
    let (n0, s0) = &out.emitted[0];
    assert_eq!(n0, "web");
    assert_eq!(s0.producer_for.as_deref(), Some("web-log"));
    assert_eq!(s0.finish.as_deref(), Some("#!/bin/sh\nexit 125\n"));
    let (n1, s1) = &out.emitted[1];
    assert_eq!(n1, "web-log");
    assert_eq!(s1.consumer_for.as_deref(), Some("web"));
    assert_eq!(s1.pipeline_name.as_deref(), Some("web-with-logs"));
    assert!(s1.extensions.is_none());

    assert_eq!(out.logs.len(), 1);
    assert_eq!(out.logs[0].0, "web");
    assert_eq!(out.logs[0].1, "/var/log/web");
}

#[test]
fn driver_skips_disabled_records() {
    let services = vec![
        ("kept".to_string(), record(ServiceType::OneShot), false),
        ("dropped".to_string(), record(ServiceType::OneShot), false),
    ];
    let enabled = vec!["kept".to_string()];
    let out = drive(services, &enabled, &"/out".to_string()).unwrap();
    assert_eq!(out.emitted.len(), 1);
    assert_eq!(out.emitted[0].0, "kept");
}

#[test]
fn driver_keeps_derived_records_even_if_not_enabled() {
    let mut web = record(ServiceType::LongRun);
    web.extensions = Some(Extensions {
        log: Some(LogExt { dir: "/var/log/web".to_string() }),
        restart: None,
    });
    let services = vec![("web".to_string(), web, false)];
    let enabled = vec!["web".to_string()];
    let out = drive(services, &enabled, &"/out".to_string()).unwrap();
    let names: Vec<&str> = out.emitted.iter().map(|(n, _)| n.as_str()).collect();
    assert_eq!(names, vec!["web", "web-log"]);
}

#[test]
fn classify_standalone_is_visible_under_own_name() {
    let s = record(ServiceType::LongRun);
    match classify(&"api".to_string(), &s) {
        BundleDecision::Visible(n) => assert_eq!(n, "api"),
        _ => panic!("expected a visible decision"),
    }
}

#[test]
fn classify_producer_is_hidden() {
    let mut s = record(ServiceType::LongRun);
    s.producer_for = Some("api-log".to_string());
    assert!(matches!(classify(&"api".to_string(), &s), BundleDecision::Hidden));
}

#[test]
fn classify_tail_with_pipeline_name_is_visible_under_it() {
    let mut s = record(ServiceType::LongRun);
    s.consumer_for = Some("api".to_string());
    s.pipeline_name = Some("api-with-logs".to_string());
    match classify(&"api-log".to_string(), &s) {
        BundleDecision::Visible(n) => assert_eq!(n, "api-with-logs"),
        _ => panic!("expected a visible decision"),
    }
}

#[test]
fn classify_tail_without_pipeline_name_warns() {
    let mut s = record(ServiceType::LongRun);
    s.consumer_for = Some("api".to_string());
    assert!(matches!(classify(&"api-log".to_string(), &s), BundleDecision::Warn));
}

#[test]
fn end_to_end_oneshot_and_logged_longrun() {
    let migrate = record(ServiceType::OneShot);
    let mut web = record(ServiceType::LongRun);
    web.dependencies = Some(vec!["migrate".to_string()]);
    web.extensions = Some(Extensions {
        log: Some(LogExt { dir: "/var/log/web".to_string() }),
        restart: None,
    });
    let services = vec![("migrate".to_string(), migrate), ("web".to_string(), web)];
    let out = compile(services, Some(vec!["web".to_string()]), &"/out".to_string()).unwrap();

    let names: Vec<&str> = out.emitted.iter().map(|(n, _)| n.as_str()).collect();
    assert_eq!(names, vec!["migrate", "web", "web-log"]);

    let web_rec = &out.emitted[1].1;
    assert_eq!(web_rec.producer_for.as_deref(), Some("web-log"));
    let log_rec = &out.emitted[2].1;
    assert_eq!(log_rec.consumer_for.as_deref(), Some("web"));
    assert_eq!(log_rec.pipeline_name.as_deref(), Some("web-with-logs"));
    assert_eq!(
        log_rec.run.as_deref(),
        Some("#!/bin/sh\nexec logutil-service /var/log/web\n")
    );

    let bundle = bundle_entries(&out.emitted);
    assert_eq!(bundle, vec!["migrate".to_string(), "web-with-logs".to_string()]);

    assert_eq!(
        logterm_config(&out.logs),
        "logsets:\n  web: /var/log/web/current\n\n"
    );
}

#[test]
fn compile_unknown_enabled_name_fails_before_expansion() {
    let mut bad = record(ServiceType::OneShot);
    bad.up = Some("declared".to_string());
    bad.extensions = Some(Extensions {
        log: Some(LogExt { dir: "/var/log/bad".to_string() }),
        restart: None,
    });
    // the conflict in `bad` is never reached: the unknown name wins first
    let services = vec![("bad".to_string(), bad)];
    let r = compile(services, Some(vec!["missing".to_string()]), &"/out".to_string());
    match r {
        Err(e) => assert_eq!(
            e.describe(),
            "service missing not found but was specified in --services-enabled"
        ),
        _ => panic!("expected an unknown-service error"),
    }
}

#[test]
fn logterm_config_empty_mapping() {
    assert_eq!(logterm_config(&Vec::new()), "logsets:\n\n");
}

#[test]
fn logterm_config_keeps_entry_order() {
    let logs = vec![
        ("b".to_string(), "/var/log/b".to_string()),
        ("a".to_string(), "/var/log/a".to_string()),
    ];
    assert_eq!(
        logterm_config(&logs),
        "logsets:\n  b: /var/log/b/current\n  a: /var/log/a/current\n\n"
    );
}

#[test]
fn bundle_entries_drop_warned_tails() {
    let mut tail = record(ServiceType::LongRun);
    tail.consumer_for = Some("api".to_string());
    let services = vec![
        ("api".to_string(), record(ServiceType::LongRun)),
        ("api-log".to_string(), tail),
    ];
    assert_eq!(bundle_entries(&services), vec!["api".to_string()]);
}

#[test]
fn compile_conflict_aborts_the_run() {
    let mut job = record(ServiceType::OneShot);
    job.up = Some("declared".to_string());
    job.extensions = Some(Extensions {
        log: Some(LogExt { dir: "/var/log/job".to_string() }),
        restart: None,
    });
    let services = vec![("job".to_string(), job)];
    let r = compile(services, None, &"/out".to_string());
    match r {
        Err(e) => assert_eq!(e.describe(), "extension `log` would clobber up for oneshots"),
        _ => panic!("expected an extension conflict"),
    }
}

#[test]
fn compile_with_empty_enable_list_emits_everything() {
    let services = vec![
        ("a".to_string(), record(ServiceType::OneShot)),
        ("b".to_string(), record(ServiceType::OneShot)),
    ];
    let out = compile(services, Some(Vec::new()), &"/out".to_string()).unwrap();
    let names: Vec<&str> = out.emitted.iter().map(|(n, _)| n.as_str()).collect();
    assert_eq!(names, vec!["a", "b"]);
}

#[test]
fn type_literals() {
    assert_eq!(ServiceType::OneShot.literal(), "oneshot");
    assert_eq!(ServiceType::LongRun.literal(), "longrun");
}
