//! Fixed-point expansion driver: applies the extension expander over a
//! generation of services, collects the derived records into the next
//! generation, and repeats until a generation derives nothing.

use vstd::prelude::*;
use vstd::string::StringExecFns;
use crate::model::{CompileError, CompileErrorModel, Service, ServiceModel, str_seq_view};
use crate::expand::{expand, expand_spec, log_dir_of, Expansion};
use crate::resolve::contains_name;

verus! {

/// Views of a sequence of named records.
pub open spec fn named_view(v: Seq<(String, Service)>) -> Seq<(Seq<char>, ServiceModel)> {
    v.map_values(|p: (String, Service)| (p.0@, p.1@))
}

/// Views of a generation: named records tagged with the derived flag.
pub open spec fn gen_view(v: Seq<(String, Service, bool)>) -> Seq<(Seq<char>, ServiceModel, bool)> {
    v.map_values(|p: (String, Service, bool)| (p.0@, p.1@, p.2))
}

/// Views of the recorded log-directory mapping.
pub open spec fn log_view(v: Seq<(String, String)>) -> Seq<(Seq<char>, Seq<char>)> {
    v.map_values(|p: (String, String)| (p.0@, p.1@))
}

/// The path of a service's compiled run artifact under the output root.
pub open spec fn run_path_spec(output_dir: Seq<char>, name: Seq<char>) -> Seq<char> {
    output_dir + "/"@ + name + "/run"@
}

/// Builds the run-artifact path of `name` under `output_dir`.
pub fn run_path(output_dir: &String, name: &String) -> (r: String)
    ensures
        r@ == run_path_spec(output_dir@, name@),
{
    let mut s = output_dir.clone();
    s.append("/");
    s.append(name.as_str());
    s.append("/run");
    s
}

/// The log-viewer entries contributed by one expanded record.
pub open spec fn log_entries(name: Seq<char>, d: Option<Seq<char>>) -> Seq<(Seq<char>, Seq<char>)> {
    match d {
        Some(dir) => seq![(name, dir)],
        None => Seq::empty(),
    }
}

/// One generation of the driver: every record that is derived or
/// enabled is expanded in order; the first conflict aborts. Returns the
/// emitted records, the next generation's records, and the recorded
/// log directories.
pub open spec fn gen_step_spec(
    gen: Seq<(Seq<char>, ServiceModel, bool)>,
    enabled: Set<Seq<char>>,
    out_dir: Seq<char>,
) -> Result<
    (Seq<(Seq<char>, ServiceModel)>, Seq<(Seq<char>, ServiceModel)>, Seq<(Seq<char>, Seq<char>)>),
    CompileErrorModel,
>
    decreases gen.len(),
{
    if gen.len() == 0 {
        Ok((Seq::empty(), Seq::empty(), Seq::empty()))
    } else {
        let name = gen[0].0;
        let s = gen[0].1;
        let derived = gen[0].2;
        if !derived && !enabled.contains(name) {
            gen_step_spec(gen.drop_first(), enabled, out_dir)
        } else {
            match expand_spec(name, s, run_path_spec(out_dir, name)) {
                Err(e) => Err(e),
                Ok(x) => match gen_step_spec(gen.drop_first(), enabled, out_dir) {
                    Err(e) => Err(e),
                    Ok(rest) => Ok(
                        (
                            seq![(name, x.service)] + rest.0,
                            x.derived + rest.1,
                            log_entries(name, x.log_dir) + rest.2,
                        ),
                    ),
                },
            }
        }
    }
}

/// The number of records in a generation carrying a `log` extension —
/// the only source of derived records, so the driver's termination
/// measure.
pub open spec fn log_ext_count(gen: Seq<(Seq<char>, ServiceModel, bool)>) -> nat
    decreases gen.len(),
{
    if gen.len() == 0 {
        0
    } else {
        (if log_dir_of(gen[0].1) is Some {
            1nat
        } else {
            0nat
        }) + log_ext_count(gen.drop_first())
    }
}

/// Tags records as derived for the next generation.
pub open spec fn tag_derived(v: Seq<(Seq<char>, ServiceModel)>) -> Seq<
    (Seq<char>, ServiceModel, bool),
> {
    v.map_values(|p: (Seq<char>, ServiceModel)| (p.0, p.1, true))
}

/// A generation of extension-free records counts zero.
proof fn lemma_no_ext_count_zero(v: Seq<(Seq<char>, ServiceModel, bool)>)
    requires
        forall|i: int| 0 <= i < v.len() ==> (#[trigger] v[i]).1.extensions is None,
    ensures
        log_ext_count(v) == 0,
    decreases v.len(),
{
    if v.len() > 0 {
        assert(v[0].1.extensions is None);
        let rest = v.drop_first();
        assert forall|i: int| 0 <= i < rest.len() implies (#[trigger] rest[i]).1.extensions
            is None by {
            assert(rest[i] == v[i + 1]);
        }
        lemma_no_ext_count_zero(v.drop_first());
    }
}

/// Derived records carry no extensions, and a generation only derives
/// records if some of its own records carries a `log` extension.
proof fn lemma_step_next(
    gen: Seq<(Seq<char>, ServiceModel, bool)>,
    enabled: Set<Seq<char>>,
    out_dir: Seq<char>,
)
    requires
        gen_step_spec(gen, enabled, out_dir) is Ok,
    ensures
        forall|i: int|
            0 <= i < gen_step_spec(gen, enabled, out_dir)->Ok_0.1.len() ==> (
            #[trigger] gen_step_spec(gen, enabled, out_dir)->Ok_0.1[i]).1.extensions is None,
        gen_step_spec(gen, enabled, out_dir)->Ok_0.1.len() > 0 ==> log_ext_count(gen) > 0,
    decreases gen.len(),
{
    if gen.len() == 0 {
    } else {
        let name = gen[0].0;
        let s = gen[0].1;
        let derived = gen[0].2;
        if !derived && !enabled.contains(name) {
            lemma_step_next(gen.drop_first(), enabled, out_dir);
        } else {
            let x = expand_spec(name, s, run_path_spec(out_dir, name))->Ok_0;
            lemma_step_next(gen.drop_first(), enabled, out_dir);
            let rest = gen_step_spec(gen.drop_first(), enabled, out_dir)->Ok_0;
            let nx = x.derived + rest.1;
            assert forall|i: int| 0 <= i < nx.len() implies (#[trigger] nx[i]).1.extensions
                is None by {
                if i >= x.derived.len() {
                    assert(nx[i] == rest.1[i - x.derived.len()]);
                }
            }
            if x.derived.len() > 0 {
                assert(log_dir_of(s) is Some);
            }
        }
    }
}

/// Repeated generations until a fixed point: the concatenation of every
/// generation's emitted records and log entries, or the first conflict.
pub open spec fn drive_spec(
    gen: Seq<(Seq<char>, ServiceModel, bool)>,
    enabled: Set<Seq<char>>,
    out_dir: Seq<char>,
) -> Result<(Seq<(Seq<char>, ServiceModel)>, Seq<(Seq<char>, Seq<char>)>), CompileErrorModel>
    decreases log_ext_count(gen),
    via lemma_drive_spec_decreases
{
    match gen_step_spec(gen, enabled, out_dir) {
        Err(e) => Err(e),
        Ok(step) => if step.1.len() == 0 {
            Ok((step.0, step.2))
        } else {
            match drive_spec(tag_derived(step.1), enabled, out_dir) {
                Err(e) => Err(e),
                Ok(rest) => Ok((step.0 + rest.0, step.2 + rest.1)),
            }
        },
    }
}

#[via_fn]
proof fn lemma_drive_spec_decreases(
    gen: Seq<(Seq<char>, ServiceModel, bool)>,
    enabled: Set<Seq<char>>,
    out_dir: Seq<char>,
) {
    if gen_step_spec(gen, enabled, out_dir) is Ok {
        let step = gen_step_spec(gen, enabled, out_dir)->Ok_0;
        if step.1.len() != 0 {
            lemma_step_next(gen, enabled, out_dir);
            assert forall|i: int| 0 <= i < tag_derived(step.1).len() implies (
            #[trigger] tag_derived(step.1)[i]).1.extensions is None by {
                assert(tag_derived(step.1)[i].1 == step.1[i].1);
            }
            lemma_no_ext_count_zero(tag_derived(step.1));
        }
    }
}

/// Runs one generation: expands every derived-or-enabled record in
/// order, collecting emitted records, next-generation records and log
/// directories.
fn gen_step(gen: Vec<(String, Service, bool)>, enabled: &Vec<String>, output_dir: &String) -> (r:
    Result<(Vec<(String, Service)>, Vec<(String, Service)>, Vec<(String, String)>), CompileError>)
    ensures
        match r {
            Ok(t) => gen_step_spec(gen_view(gen@), str_seq_view(enabled@).to_set(), output_dir@)
                == Ok::<
                (
                    Seq<(Seq<char>, ServiceModel)>,
                    Seq<(Seq<char>, ServiceModel)>,
                    Seq<(Seq<char>, Seq<char>)>,
                ),
                CompileErrorModel,
            >((named_view(t.0@), named_view(t.1@), log_view(t.2@))),
            Err(e) => gen_step_spec(gen_view(gen@), str_seq_view(enabled@).to_set(), output_dir@)
                == Err::<
                (
                    Seq<(Seq<char>, ServiceModel)>,
                    Seq<(Seq<char>, ServiceModel)>,
                    Seq<(Seq<char>, Seq<char>)>,
                ),
                CompileErrorModel,
            >(e@),
        },
    decreases gen@.len(),
{
    let ghost g0 = gen_view(gen@);
    let ghost en = str_seq_view(enabled@).to_set();
    let mut gen = gen;
    if gen.len() == 0 {
        let r = (
            Vec::<(String, Service)>::new(),
            Vec::<(String, Service)>::new(),
            Vec::<(String, String)>::new(),
        );
        proof {
            assert(named_view(r.0@) =~~= Seq::<(Seq<char>, ServiceModel)>::empty());
            assert(named_view(r.1@) =~~= Seq::<(Seq<char>, ServiceModel)>::empty());
            assert(log_view(r.2@) =~~= Seq::<(Seq<char>, Seq<char>)>::empty());
        }
        return Ok(r);
    }
    let (name, svc, dflag) = gen.remove(0);
    proof {
        assert(g0[0] == (name@, svc@, dflag));
        assert(gen_view(gen@) =~~= g0.drop_first());
    }
    if !dflag && !contains_name(enabled, &name) {
        return gen_step(gen, enabled, output_dir);
    }
    let rp = run_path(output_dir, &name);
    match expand(&name, svc, &rp) {
        Err(e) => Err(e),
        Ok(x) => {
            match gen_step(gen, enabled, output_dir) {
                Err(e) => Err(e),
                Ok((mut r0, mut r1, mut r2)) => {
                    let ghost r0v = r0@;
                    let ghost r1v = r1@;
                    let ghost r2v = r2@;
                    let Expansion { service, derived, log_dir } = x;
                    let mut em: Vec<(String, Service)> = Vec::new();
                    em.push((name.clone(), service));
                    em.append(&mut r0);
                    let mut nx = derived;
                    nx.append(&mut r1);
                    let mut lg: Vec<(String, String)> = Vec::new();
                    if let Some(d) = log_dir {
                        lg.push((name, d));
                    }
                    lg.append(&mut r2);
                    proof {
                        let hx = expand_spec(name@, svc@, run_path_spec(output_dir@, name@))->Ok_0;
                        assert(named_view(em@) =~~= seq![(name@, hx.service)] + named_view(r0v));
                        assert(named_view(nx@) =~~= hx.derived + named_view(r1v));
                        assert(log_view(lg@) =~~= log_entries(name@, hx.log_dir) + log_view(r2v));
                    }
                    Ok((em, nx, lg))
                },
            }
        },
    }
}

/// The result of driving expansion to its fixed point: every emitted
/// record in emission order, and the recorded log-directory mapping.
pub struct CompileOutput {
    pub emitted: Vec<(String, Service)>,
    pub logs: Vec<(String, String)>,
}

impl View for CompileOutput {
    type V = (Seq<(Seq<char>, ServiceModel)>, Seq<(Seq<char>, Seq<char>)>);

    open spec fn view(&self) -> (Seq<(Seq<char>, ServiceModel)>, Seq<(Seq<char>, Seq<char>)>) {
        (named_view(self.emitted@), log_view(self.logs@))
    }
}

/// Drives extension expansion to a fixed point over the initial
/// generation `services`, skipping records that are neither enabled nor
/// derived, and stopping after the first generation that derives
/// nothing.
pub fn drive(services: Vec<(String, Service, bool)>, enabled: &Vec<String>, output_dir: &String)
    -> (r: Result<CompileOutput, CompileError>)
    ensures
        match r {
            Ok(out) => drive_spec(gen_view(services@), str_seq_view(enabled@).to_set(), output_dir@)
                == Ok::<
                (Seq<(Seq<char>, ServiceModel)>, Seq<(Seq<char>, Seq<char>)>),
                CompileErrorModel,
            >(out@),
            Err(e) => drive_spec(gen_view(services@), str_seq_view(enabled@).to_set(), output_dir@)
                == Err::<
                (Seq<(Seq<char>, ServiceModel)>, Seq<(Seq<char>, Seq<char>)>),
                CompileErrorModel,
            >(e@),
        },
    decreases log_ext_count(gen_view(services@)),
{
    let ghost g0 = gen_view(services@);
    let ghost en = str_seq_view(enabled@).to_set();
    match gen_step(services, enabled, output_dir) {
        Err(e) => Err(e),
        Ok((em, next, lg)) => {
            if next.len() == 0 {
                proof {
                    assert(named_view(next@) =~~= Seq::<(Seq<char>, ServiceModel)>::empty());
                }
                return Ok(CompileOutput { emitted: em, logs: lg });
            }
            proof {
                lemma_step_next(g0, en, output_dir@);
                let step = gen_step_spec(g0, en, output_dir@)->Ok_0;
                assert forall|i: int| 0 <= i < tag_derived(step.1).len() implies (
                #[trigger] tag_derived(step.1)[i]).1.extensions is None by {
                    assert(tag_derived(step.1)[i].1 == step.1[i].1);
                }
                lemma_no_ext_count_zero(tag_derived(step.1));
            }
            let mut tagged: Vec<(String, Service, bool)> = Vec::new();
            let mut rest = next;
            let ghost next0 = rest@;
            while rest.len() > 0
                invariant
                    gen_view(tagged@) + tag_derived(named_view(rest@)) =~= tag_derived(
                        named_view(next0),
                    ),
                decreases rest@.len(),
            {
                let ghost tagged0 = tagged@;
                let ghost rest0 = rest@;
                let (n, s) = rest.remove(0);
                tagged.push((n, s, true));
                proof {
                    assert(gen_view(tagged@) =~~= gen_view(tagged0).push((n@, s@, true)));
                    assert(tag_derived(named_view(rest0))[0] == (n@, s@, true));
                    assert(tag_derived(named_view(rest@)) =~~= tag_derived(
                        named_view(rest0),
                    ).drop_first());
                    assert(gen_view(tagged@) + tag_derived(named_view(rest@)) =~~= gen_view(
                        tagged0,
                    ) + tag_derived(named_view(rest0)));
                }
            }
            proof {
                assert(tag_derived(named_view(rest@)) =~~= Seq::<
                    (Seq<char>, ServiceModel, bool),
                >::empty());
                assert(gen_view(tagged@) =~~= tag_derived(named_view(next0)));
            }
            match drive(tagged, enabled, output_dir) {
                Err(e) => Err(e),
                Ok(out) => {
                    let CompileOutput { emitted: mut em2, logs: mut lg2 } = out;
                    let mut em = em;
                    let mut lg = lg;
                    em.append(&mut em2);
                    lg.append(&mut lg2);
                    let res = CompileOutput { emitted: em, logs: lg };
                    proof {
                        let step = gen_step_spec(g0, en, output_dir@)->Ok_0;
                        let rec = drive_spec(tag_derived(step.1), en, output_dir@)->Ok_0;
                        assert(named_view(res.emitted@) =~~= step.0 + rec.0);
                        assert(log_view(res.logs@) =~~= step.2 + rec.1);
                    }
                    Ok(res)
                },
            }
        },
    }
}

} // verus!
