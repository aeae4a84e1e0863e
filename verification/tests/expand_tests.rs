use svccomp::expand::{expand, log_run, log_up, logger_name, no_restart_on_failure, pipeline_label};
use svccomp::model::{
    CompileError, ConflictField, Extensions, LogExt, RestartExt, Service, ServiceType,
};

fn bare(type_: ServiceType) -> Service {
    Service {
        type_,
        up: None,
        run: None,
        finish: None,
        consumer_for: None,
        producer_for: None,
        pipeline_name: None,
        dependencies: None,
        extensions: None,
    }
}

fn with_log(type_: ServiceType, dir: &str) -> Service {
    let mut s = bare(type_);
    s.extensions = Some(Extensions {
        log: Some(LogExt { dir: dir.to_string() }),
        restart: None,
    });
    s
}

#[test]
fn template_log_run() {
    assert_eq!(
        log_run(&"/var/log/web".to_string()),
        "#!/bin/sh\nexec logutil-service /var/log/web\n"
    );
}

#[test]
fn template_log_up() {
    assert_eq!(
        log_up(&"/var/log/x".to_string(), &"/out/app/run".to_string()),
        "#!/command/execlineb -P\npipeline -w { logutil-service /var/log/x }\nfdmove -c 2 1\n/out/app/run\n"
    );
}

#[test]
fn template_no_restart() {
    assert_eq!(no_restart_on_failure(), "#!/bin/sh\nexit 125\n");
}

#[test]
fn derived_names() {
    assert_eq!(logger_name(&"web".to_string()), "web-log");
    assert_eq!(pipeline_label(&"web".to_string()), "web-with-logs");
}

#[test]
fn log_on_oneshot_with_up_set_conflicts() {
    let mut s = with_log(ServiceType::OneShot, "/var/log/x");
    s.up = Some("declared".to_string());
    let r = expand(&"job".to_string(), s, &"/out/job/run".to_string());
    match r {
        Err(CompileError::ExtensionConflict(n, ConflictField::Up)) => assert_eq!(n, "job"),
        _ => panic!("expected an up conflict"),
    }
}

#[test]
fn log_on_oneshot_rewrites_up() {
    let s = with_log(ServiceType::OneShot, "/var/log/x");
    let x = expand(&"job".to_string(), s, &"/out/job/run".to_string()).unwrap();
    assert_eq!(
        x.service.up.as_deref(),
        Some("#!/command/execlineb -P\npipeline -w { logutil-service /var/log/x }\nfdmove -c 2 1\n/out/job/run\n")
    );
    assert!(x.derived.is_empty());
    assert_eq!(x.log_dir.as_deref(), Some("/var/log/x"));
}

#[test]
fn log_on_longrun_with_producer_set_conflicts() {
    let mut s = with_log(ServiceType::LongRun, "/var/log/web");
    s.producer_for = Some("elsewhere".to_string());
    let r = expand(&"web".to_string(), s, &"/out/web/run".to_string());
    match r {
        Err(CompileError::ExtensionConflict(n, ConflictField::ProducerFor)) => {
            assert_eq!(n, "web")
        }
        _ => panic!("expected a producer-for conflict"),
    }
}

#[test]
fn log_on_longrun_derives_one_forwarder() {
    let mut s = with_log(ServiceType::LongRun, "/var/log/web");
    s.dependencies = Some(vec!["db".to_string()]);
    let x = expand(&"web".to_string(), s, &"/out/web/run".to_string()).unwrap();
    assert_eq!(x.service.producer_for.as_deref(), Some("web-log"));
    assert_eq!(x.derived.len(), 1);
    let (dname, d) = &x.derived[0];
    assert_eq!(dname, "web-log");
    assert!(matches!(d.type_, ServiceType::LongRun));
    assert_eq!(d.consumer_for.as_deref(), Some("web"));
    assert_eq!(d.producer_for, None);
    assert_eq!(d.pipeline_name.as_deref(), Some("web-with-logs"));
    assert_eq!(d.dependencies, Some(vec!["db".to_string()]));
    assert!(d.extensions.is_none());
    assert_eq!(
        d.run.as_deref(),
        Some("#!/bin/sh\nexec logutil-service /var/log/web\n")
    );
}

#[test]
fn expansion_without_extensions_changes_nothing() {
    let s = bare(ServiceType::LongRun);
    let x = expand(&"quiet".to_string(), s, &"/out/quiet/run".to_string()).unwrap();
    assert!(x.service.up.is_none());
    assert!(x.service.run.is_none());
    assert!(x.service.finish.is_none());
    assert!(x.service.producer_for.is_none());
    assert!(x.derived.is_empty());
    assert!(x.log_dir.is_none());
}

#[test]
fn restart_off_sets_finish() {
    let mut s = bare(ServiceType::LongRun);
    s.extensions = Some(Extensions {
        log: None,
        restart: Some(RestartExt { on_failure: false }),
    });
    let x = expand(&"svc".to_string(), s, &"/out/svc/run".to_string()).unwrap();
    assert_eq!(x.service.finish.as_deref(), Some("#!/bin/sh\nexit 125\n"));
}

#[test]
fn restart_off_with_finish_set_conflicts() {
    let mut s = bare(ServiceType::LongRun);
    s.finish = Some("declared".to_string());
    s.extensions = Some(Extensions {
        log: None,
        restart: Some(RestartExt { on_failure: false }),
    });
    let r = expand(&"svc".to_string(), s, &"/out/svc/run".to_string());
    match r {
        Err(CompileError::ExtensionConflict(n, ConflictField::Finish)) => assert_eq!(n, "svc"),
        _ => panic!("expected a finish conflict"),
    }
}

#[test]
fn restart_on_failure_true_is_noop() {
    let mut s = bare(ServiceType::LongRun);
    s.extensions = Some(Extensions {
        log: None,
        restart: Some(RestartExt { on_failure: true }),
    });
    let x = expand(&"svc".to_string(), s, &"/out/svc/run".to_string()).unwrap();
    assert!(x.service.finish.is_none());
}

#[test]
fn restart_runs_after_log_on_oneshot() {
    let mut s = with_log(ServiceType::OneShot, "/var/log/x");
    s.extensions.as_mut().unwrap().restart = Some(RestartExt { on_failure: false });
    let x = expand(&"job".to_string(), s, &"/out/job/run".to_string()).unwrap();
    assert!(x.service.up.is_some());
    assert_eq!(x.service.finish.as_deref(), Some("#!/bin/sh\nexit 125\n"));
}
