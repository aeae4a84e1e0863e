//! Laws of the expansion pipeline, stated over the spec-level models
//! and proved once and for all.

use vstd::prelude::*;
use crate::model::{CompileErrorModel, ConflictField, ServiceModel, ServiceType};
use crate::expand::{
    apply_log_spec, derived_logger_spec, expand_spec, log_dir_of, log_up_template,
    logger_name_spec, no_restart_template, restart_of, ExpansionModel,
};
use crate::driver::{drive_spec, gen_step_spec, log_entries, tag_derived};
use crate::bundle::{classify_spec, BundleDecisionModel};

verus! {

/// Law: applying `log` to a one-shot service whose `up` is already
/// declared is a conflict; on one with `up` unset it rewrites exactly
/// that record — `up` becomes the wrapper template — and derives
/// nothing.
pub proof fn lemma_log_oneshot(name: Seq<char>, s: ServiceModel, run_script: Seq<char>)
    requires
        s.type_ == ServiceType::OneShot,
        log_dir_of(s) is Some,
    ensures
        s.up is Some ==> apply_log_spec(name, s, run_script) == Err::<
            (ServiceModel, Seq<(Seq<char>, ServiceModel)>),
            CompileErrorModel,
        >(CompileErrorModel::ExtensionConflict(name, ConflictField::Up)),
        s.up is None ==> apply_log_spec(name, s, run_script) == Ok::<
            (ServiceModel, Seq<(Seq<char>, ServiceModel)>),
            CompileErrorModel,
        >(
            (
                ServiceModel { up: Some(log_up_template(log_dir_of(s).unwrap(), run_script)), ..s },
                Seq::empty(),
            ),
        ),
{
}

/// Law: applying `log` to a long-running service whose `producer_for`
/// is already declared is a conflict; on one with `producer_for` unset
/// it points the original at the derived name and derives exactly one
/// log-forwarder — a consumer of the original, labelled with the shared
/// pipeline name, inheriting the original's dependencies.
pub proof fn lemma_log_longrun(name: Seq<char>, s: ServiceModel, run_script: Seq<char>)
    requires
        s.type_ == ServiceType::LongRun,
        log_dir_of(s) is Some,
    ensures
        s.producer_for is Some ==> apply_log_spec(name, s, run_script) == Err::<
            (ServiceModel, Seq<(Seq<char>, ServiceModel)>),
            CompileErrorModel,
        >(CompileErrorModel::ExtensionConflict(name, ConflictField::ProducerFor)),
        s.producer_for is None ==> apply_log_spec(name, s, run_script) == Ok::<
            (ServiceModel, Seq<(Seq<char>, ServiceModel)>),
            CompileErrorModel,
        >(
            (
                ServiceModel { producer_for: Some(logger_name_spec(name)), ..s },
                seq![
                    (
                        logger_name_spec(name),
                        derived_logger_spec(name, log_dir_of(s).unwrap(), s.dependencies),
                    )
                ],
            ),
        ),
        s.producer_for is None ==> {
            let d = derived_logger_spec(name, log_dir_of(s).unwrap(), s.dependencies);
            &&& d.consumer_for == Some(name)
            &&& d.pipeline_name == Some(crate::expand::pipeline_label_spec(name))
            &&& d.dependencies == s.dependencies
            &&& d.extensions is None
        },
{
}

/// Law: expansion is the identity on a record with no extensions —
/// nothing is rewritten, nothing is derived, no log directory is
/// recorded.
pub proof fn lemma_expand_no_extensions(name: Seq<char>, s: ServiceModel, run_script: Seq<char>)
    requires
        s.extensions is None,
    ensures
        expand_spec(name, s, run_script) == Ok::<ExpansionModel, CompileErrorModel>(
            ExpansionModel { service: s, derived: Seq::empty(), log_dir: None },
        ),
{
    assert(expand_spec(name, s, run_script)->Ok_0 =~~= (ExpansionModel {
        service: s,
        derived: Seq::empty(),
        log_dir: None,
    }));
}

/// Law: driving a single enabled long-running service with both the
/// `log` and the `restart { on_failure: false }` extensions reaches a
/// fixed point with exactly the rewritten original — `producer_for` and
/// the sentinel `finish` set — plus its one derived log-forwarder, and
/// records one log directory.
pub proof fn lemma_fixed_point_longrun(
    name: Seq<char>,
    s: ServiceModel,
    enabled: Set<Seq<char>>,
    out_dir: Seq<char>,
)
    requires
        s.type_ == ServiceType::LongRun,
        log_dir_of(s) is Some,
        restart_of(s) == Some(false),
        s.producer_for is None,
        s.finish is None,
        enabled.contains(name),
    ensures
        ({
            let dir = log_dir_of(s).unwrap();
            let rewritten = ServiceModel {
                producer_for: Some(logger_name_spec(name)),
                finish: Some(no_restart_template()),
                ..s
            };
            let logger = derived_logger_spec(name, dir, s.dependencies);
            drive_spec(seq![(name, s, false)], enabled, out_dir) == Ok::<
                (Seq<(Seq<char>, ServiceModel)>, Seq<(Seq<char>, Seq<char>)>),
                CompileErrorModel,
            >((seq![(name, rewritten), (logger_name_spec(name), logger)], seq![(name, dir)]))
        }),
{
    let dir = log_dir_of(s).unwrap();
    let rewritten = ServiceModel {
        producer_for: Some(logger_name_spec(name)),
        finish: Some(no_restart_template()),
        ..s
    };
    let logger = derived_logger_spec(name, dir, s.dependencies);
    let rp = crate::driver::run_path_spec(out_dir, name);
    let gen0 = seq![(name, s, false)];

    // first generation: the original is expanded
    let mid = ServiceModel { producer_for: Some(logger_name_spec(name)), ..s };
    assert(apply_log_spec(name, s, rp) == Ok::<
        (ServiceModel, Seq<(Seq<char>, ServiceModel)>),
        CompileErrorModel,
    >((mid, seq![(logger_name_spec(name), logger)])));
    assert(crate::expand::apply_restart_spec(name, mid) == Ok::<
        ServiceModel,
        CompileErrorModel,
    >(rewritten)) by {
        assert(ServiceModel { finish: Some(no_restart_template()), ..mid } =~~= rewritten);
    }
    assert(expand_spec(name, s, rp) == Ok::<ExpansionModel, CompileErrorModel>(
        ExpansionModel {
            service: rewritten,
            derived: seq![(logger_name_spec(name), logger)],
            log_dir: Some(dir),
        },
    ));
    assert(gen0.drop_first() =~= Seq::<(Seq<char>, ServiceModel, bool)>::empty());
    assert(gen_step_spec(gen0.drop_first(), enabled, out_dir) == Ok::<
        (
            Seq<(Seq<char>, ServiceModel)>,
            Seq<(Seq<char>, ServiceModel)>,
            Seq<(Seq<char>, Seq<char>)>,
        ),
        CompileErrorModel,
    >((Seq::empty(), Seq::empty(), Seq::empty())));
    let step0 = gen_step_spec(gen0, enabled, out_dir)->Ok_0;
    assert(step0.0 =~~= seq![(name, rewritten)]);
    assert(step0.1 =~~= seq![(logger_name_spec(name), logger)]);
    assert(step0.2 =~~= seq![(name, dir)]);

    // second generation: the derived log-forwarder, which derives nothing
    let gen1 = tag_derived(step0.1);
    assert(gen1 =~~= seq![(logger_name_spec(name), logger, true)]);
    lemma_expand_no_extensions(
        logger_name_spec(name),
        logger,
        crate::driver::run_path_spec(out_dir, logger_name_spec(name)),
    );
    assert(gen1.drop_first() =~= Seq::<(Seq<char>, ServiceModel, bool)>::empty());
    let step1 = gen_step_spec(gen1, enabled, out_dir)->Ok_0;
    assert(log_entries(logger_name_spec(name), None) =~= Seq::<(Seq<char>, Seq<char>)>::empty());
    assert(step1.0 =~~= seq![(logger_name_spec(name), logger)]);
    assert(step1.1 =~~= Seq::<(Seq<char>, ServiceModel)>::empty());
    assert(step1.2 =~~= Seq::<(Seq<char>, Seq<char>)>::empty());
    assert(drive_spec(gen1, enabled, out_dir) == Ok::<
        (Seq<(Seq<char>, ServiceModel)>, Seq<(Seq<char>, Seq<char>)>),
        CompileErrorModel,
    >((step1.0, step1.2)));

    // the fixed point: both generations' emissions, in order
    assert(step0.0 + step1.0 =~~= seq![(name, rewritten), (logger_name_spec(name), logger)]);
    assert(step0.2 + step1.2 =~~= seq![(name, dir)]);
}

/// Law: bundle membership follows the final pipeline topology alone —
/// a producer is hidden whatever else it declares; a consumer-only tail
/// is visible under its pipeline name; a service with neither edge is
/// visible under its own name.
pub proof fn lemma_classify_rules(name: Seq<char>, s: ServiceModel)
    ensures
        s.producer_for is Some ==> classify_spec(name, s) == BundleDecisionModel::Hidden,
        s.producer_for is None && s.consumer_for is Some && s.pipeline_name is Some
            ==> classify_spec(name, s) == BundleDecisionModel::Visible(s.pipeline_name.unwrap()),
        s.producer_for is None && s.consumer_for is Some && s.pipeline_name is None
            ==> classify_spec(name, s) == BundleDecisionModel::Warn,
        s.producer_for is None && s.consumer_for is None ==> classify_spec(name, s)
            == BundleDecisionModel::Visible(name),
{
}

} // verus!
