//! Extension expansion: one service's extensions are applied in a
//! fixed order — `log`, then `restart` — rewriting the record and
//! possibly synthesizing one derived log-forwarder record.

use vstd::prelude::*;
use vstd::string::StringExecFns;
use crate::model::{
    CompileError, CompileErrorModel, ConflictField, Service, ServiceModel, opt_str_view,
    opt_deps_view, str_seq_view,
};

verus! {

/// The run script of a derived log-forwarder for the directory `dir`.
pub open spec fn log_run_template(dir: Seq<char>) -> Seq<char> {
    "#!/bin/sh\nexec logutil-service "@ + dir + "\n"@
}

/// Builds the log-forwarder run script.
pub fn log_run(dir: &String) -> (r: String)
    ensures
        r@ == log_run_template(dir@),
{
    let mut s = String::from_str("#!/bin/sh\nexec logutil-service ");
    s.append(dir.as_str());
    s.append("\n");
    s
}

/// The `up` wrapper for a one-shot service: pipes the run script's
/// output through the log-forwarding helper into `dir`.
pub open spec fn log_up_template(dir: Seq<char>, run_script: Seq<char>) -> Seq<char> {
    "#!/command/execlineb -P\npipeline -w { logutil-service "@ + dir + " }\nfdmove -c 2 1\n"@
        + run_script + "\n"@
}

/// Builds the one-shot `up` wrapper script.
pub fn log_up(dir: &String, run_script: &String) -> (r: String)
    ensures
        r@ == log_up_template(dir@, run_script@),
{
    let mut s = String::from_str("#!/command/execlineb -P\npipeline -w { logutil-service ");
    s.append(dir.as_str());
    s.append(" }\nfdmove -c 2 1\n");
    s.append(run_script.as_str());
    s.append("\n");
    s
}

/// The `finish` script that exits with the sentinel status telling the
/// runtime not to restart the service.
pub open spec fn no_restart_template() -> Seq<char> {
    "#!/bin/sh\nexit 125\n"@
}

/// Builds the no-restart `finish` script.
pub fn no_restart_on_failure() -> (r: String)
    ensures
        r@ == no_restart_template(),
{
    String::from_str("#!/bin/sh\nexit 125\n")
}

/// The synthetic name of the derived log-forwarder of `name`.
pub open spec fn logger_name_spec(name: Seq<char>) -> Seq<char> {
    name + "-log"@
}

/// Builds the derived log-forwarder name.
pub fn logger_name(name: &String) -> (r: String)
    ensures
        r@ == logger_name_spec(name@),
{
    name.clone().concat("-log")
}

/// The pipeline label shared by `name` and its derived log-forwarder.
pub open spec fn pipeline_label_spec(name: Seq<char>) -> Seq<char> {
    name + "-with-logs"@
}

/// Builds the pipeline label.
pub fn pipeline_label(name: &String) -> (r: String)
    ensures
        r@ == pipeline_label_spec(name@),
{
    name.clone().concat("-with-logs")
}

/// The log directory named by a record's `log` extension, if any.
pub open spec fn log_dir_of(s: ServiceModel) -> Option<Seq<char>> {
    match s.extensions {
        Some(e) => e.log,
        None => None,
    }
}

/// The `on_failure` flag of a record's `restart` extension, if any.
pub open spec fn restart_of(s: ServiceModel) -> Option<bool> {
    match s.extensions {
        Some(e) => e.restart,
        None => None,
    }
}

/// The derived log-forwarder record of a long-running service `name`:
/// a long-running consumer of `name` that runs the forwarding helper
/// against `dir` and starts under the same dependencies.
pub open spec fn derived_logger_spec(
    name: Seq<char>,
    dir: Seq<char>,
    deps: Option<Seq<Seq<char>>>,
) -> ServiceModel {
    ServiceModel {
        type_: crate::model::ServiceType::LongRun,
        up: None,
        run: Some(log_run_template(dir)),
        finish: None,
        consumer_for: Some(name),
        producer_for: None,
        pipeline_name: Some(pipeline_label_spec(name)),
        dependencies: deps,
        extensions: None,
    }
}

/// The effect of the `log` extension on one record: the rewritten
/// record and the derived records it synthesizes, or the conflict.
pub open spec fn apply_log_spec(
    name: Seq<char>,
    s: ServiceModel,
    run_script: Seq<char>,
) -> Result<(ServiceModel, Seq<(Seq<char>, ServiceModel)>), CompileErrorModel> {
    match log_dir_of(s) {
        None => Ok((s, Seq::empty())),
        Some(dir) => match s.type_ {
            crate::model::ServiceType::OneShot => if s.up is Some {
                Err(CompileErrorModel::ExtensionConflict(name, ConflictField::Up))
            } else {
                Ok(
                    (
                        ServiceModel { up: Some(log_up_template(dir, run_script)), ..s },
                        Seq::empty(),
                    ),
                )
            },
            crate::model::ServiceType::LongRun => if s.producer_for is Some {
                Err(CompileErrorModel::ExtensionConflict(name, ConflictField::ProducerFor))
            } else {
                Ok(
                    (
                        ServiceModel { producer_for: Some(logger_name_spec(name)), ..s },
                        seq![
                            (logger_name_spec(name), derived_logger_spec(name, dir, s.dependencies))
                        ],
                    ),
                )
            },
        },
    }
}

/// The effect of the `restart` extension on one record.
pub open spec fn apply_restart_spec(name: Seq<char>, s: ServiceModel) -> Result<
    ServiceModel,
    CompileErrorModel,
> {
    match restart_of(s) {
        None => Ok(s),
        Some(on_failure) => if on_failure {
            Ok(s)
        } else if s.finish is Some {
            Err(CompileErrorModel::ExtensionConflict(name, ConflictField::Finish))
        } else {
            Ok(ServiceModel { finish: Some(no_restart_template()), ..s })
        },
    }
}

/// Full expansion of one record: `log` first, then `restart`, so that
/// `restart` sees whatever `finish` state `log` left behind.
pub open spec fn expand_spec(name: Seq<char>, s: ServiceModel, run_script: Seq<char>) -> Result<
    ExpansionModel,
    CompileErrorModel,
> {
    match apply_log_spec(name, s, run_script) {
        Err(e) => Err(e),
        Ok(mid) => match apply_restart_spec(name, mid.0) {
            Err(e) => Err(e),
            Ok(fin) => Ok(
                ExpansionModel { service: fin, derived: mid.1, log_dir: log_dir_of(s) },
            ),
        },
    }
}

/// The result of expanding one record: the possibly rewritten record,
/// the derived records, and the log directory recorded for the
/// log-viewer configuration.
pub struct Expansion {
    pub service: Service,
    pub derived: Vec<(String, Service)>,
    pub log_dir: Option<String>,
}

/// Ghost view of an `Expansion`.
#[verifier::ext_equal]
pub ghost struct ExpansionModel {
    pub service: ServiceModel,
    pub derived: Seq<(Seq<char>, ServiceModel)>,
    pub log_dir: Option<Seq<char>>,
}

impl View for Expansion {
    type V = ExpansionModel;

    open spec fn view(&self) -> ExpansionModel {
        ExpansionModel {
            service: self.service@,
            derived: self.derived@.map_values(|p: (String, Service)| (p.0@, p.1@)),
            log_dir: opt_str_view(self.log_dir),
        }
    }
}

/// Copies an optional dependency list.
fn clone_deps(d: &Option<Vec<String>>) -> (r: Option<Vec<String>>)
    ensures
        opt_deps_view(r) == opt_deps_view(*d),
{
    match d {
        None => None,
        Some(v) => {
            let c = v.clone();
            proof {
                assert(c@ =~= v@);
                assert(str_seq_view(c@) =~= str_seq_view(v@));
            }
            Some(c)
        },
    }
}

/// Applies the extensions of one service: `log`, then `restart`.
/// `run_script` is the path of the service's compiled run artifact,
/// interpolated into the one-shot `up` wrapper.
pub fn expand(name: &String, service: Service, run_script: &String) -> (r: Result<
    Expansion,
    CompileError,
>)
    ensures
        match r {
            Ok(x) => expand_spec(name@, service@, run_script@) == Ok::<
                ExpansionModel,
                CompileErrorModel,
            >(x@),
            Err(e) => expand_spec(name@, service@, run_script@) == Err::<
                ExpansionModel,
                CompileErrorModel,
            >(e@),
        },
{
    let ghost s0 = service@;
    let mut service = service;
    let mut derived: Vec<(String, Service)> = Vec::new();
    let log_dir: Option<String> = match &service.extensions {
        Some(e) => match &e.log {
            Some(l) => Some(l.dir.clone()),
            None => None,
        },
        None => None,
    };
    let restart: Option<bool> = match &service.extensions {
        Some(e) => match &e.restart {
            Some(rr) => Some(rr.on_failure),
            None => None,
        },
        None => None,
    };
    proof {
        assert(opt_str_view(log_dir) == log_dir_of(s0));
        assert(restart == restart_of(s0));
    }
    if let Some(dir) = &log_dir {
        match service.type_ {
            crate::model::ServiceType::OneShot => {
                if service.up.is_some() {
                    return Err(
                        CompileError::ExtensionConflict(name.clone(), ConflictField::Up),
                    );
                }
                service.up = Some(log_up(dir, run_script));
                proof {
                    assert(service@ =~~= (ServiceModel {
                        up: Some(log_up_template(dir@, run_script@)),
                        ..s0
                    }));
                }
            },
            crate::model::ServiceType::LongRun => {
                if service.producer_for.is_some() {
                    return Err(
                        CompileError::ExtensionConflict(name.clone(), ConflictField::ProducerFor),
                    );
                }
                let lname = logger_name(name);
                let label = pipeline_label(name);
                let drec = Service {
                    type_: crate::model::ServiceType::LongRun,
                    up: None,
                    run: Some(log_run(dir)),
                    finish: None,
                    consumer_for: Some(name.clone()),
                    producer_for: None,
                    pipeline_name: Some(label),
                    dependencies: clone_deps(&service.dependencies),
                    extensions: None,
                };
                proof {
                    assert(drec@ =~~= derived_logger_spec(name@, dir@, s0.dependencies));
                }
                service.producer_for = Some(lname.clone());
                derived.push((lname, drec));
                proof {
                    assert(service@ =~~= (ServiceModel {
                        producer_for: Some(logger_name_spec(name@)),
                        ..s0
                    }));
                    assert(derived@.map_values(|p: (String, Service)| (p.0@, p.1@)) =~~= seq![
                        (logger_name_spec(name@), derived_logger_spec(name@, dir@, s0.dependencies))
                    ]);
                }
            },
        }
    }
    let ghost mid = service@;
    let ghost derived_mid = derived@.map_values(|p: (String, Service)| (p.0@, p.1@));
    proof {
        if derived_mid.len() == 0 {
            assert(derived_mid =~~= Seq::<(Seq<char>, ServiceModel)>::empty());
        }
        assert(apply_log_spec(name@, s0, run_script@) == Ok::<
            (ServiceModel, Seq<(Seq<char>, ServiceModel)>),
            CompileErrorModel,
        >((mid, derived_mid)));
    }
    if let Some(on_failure) = restart {
        if !on_failure {
            if service.finish.is_some() {
                return Err(
                    CompileError::ExtensionConflict(name.clone(), ConflictField::Finish),
                );
            }
            service.finish = Some(no_restart_on_failure());
            proof {
                assert(service@ =~~= (ServiceModel {
                    finish: Some(no_restart_template()),
                    ..mid
                }));
            }
        }
    }
    proof {
        assert(apply_restart_spec(name@, mid) == Ok::<ServiceModel, CompileErrorModel>(service@));
    }
    let r = Expansion { service, derived, log_dir };
    proof {
        assert(r@ =~~= (ExpansionModel {
            service: r@.service,
            derived: derived_mid,
            log_dir: log_dir_of(s0),
        }));
    }
    Ok(r)
}

} // verus!
