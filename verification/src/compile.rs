//! The whole compilation pipeline: resolve the enabled set from the
//! declared graph, then drive extension expansion to its fixed point.

use vstd::prelude::*;
use crate::model::{CompileError, CompileErrorModel, Service, ServiceModel, str_seq_view};
use crate::resolve::{resolve, decl_names, reachable, all_declared, unknown_err};
use crate::driver::{drive, drive_spec, gen_view, named_view, CompileOutput};

verus! {

/// Tags declared records for the initial generation.
pub open spec fn tag_declared(v: Seq<(Seq<char>, ServiceModel)>) -> Seq<
    (Seq<char>, ServiceModel, bool),
> {
    v.map_values(|p: (Seq<char>, ServiceModel)| (p.0, p.1, false))
}

/// The set of every name reachable from `roots` over dependency edges.
pub open spec fn reachable_set(g: Seq<(String, Service)>, roots: Set<Seq<char>>) -> Set<
    Seq<char>,
> {
    Set::new(|n: Seq<char>| reachable(g, roots, n))
}

/// Builds the initial generation from the declared records.
fn tag_initial(services: Vec<(String, Service)>) -> (r: Vec<(String, Service, bool)>)
    ensures
        gen_view(r@) == tag_declared(named_view(services@)),
{
    let ghost all0 = named_view(services@);
    let mut tagged: Vec<(String, Service, bool)> = Vec::new();
    let mut rest = services;
    proof {
        assert(gen_view(tagged@) + tag_declared(named_view(rest@)) =~= tag_declared(all0));
    }
    while rest.len() > 0
        invariant
            gen_view(tagged@) + tag_declared(named_view(rest@)) =~= tag_declared(all0),
        decreases rest@.len(),
    {
        let ghost tagged0 = tagged@;
        let ghost rest0 = rest@;
        let (n, s) = rest.remove(0);
        tagged.push((n, s, false));
        proof {
            assert(gen_view(tagged@) =~~= gen_view(tagged0).push((n@, s@, false)));
            assert(tag_declared(named_view(rest0))[0] == (n@, s@, false));
            assert(tag_declared(named_view(rest@)) =~~= tag_declared(
                named_view(rest0),
            ).drop_first());
            assert(gen_view(tagged@) + tag_declared(named_view(rest@)) =~~= gen_view(tagged0)
                + tag_declared(named_view(rest0)));
        }
    }
    proof {
        assert(tag_declared(named_view(rest@)) =~~= Seq::<(Seq<char>, ServiceModel, bool)>::empty());
        assert(gen_view(tagged@) =~~= tag_declared(all0));
    }
    tagged
}

/// Compiles the declared graph: resolves the enabled set — failing on a
/// requested name that is not declared — then drives expansion over the
/// enabled-or-derived records to its fixed point.
pub fn compile(
    services: Vec<(String, Service)>,
    requested: Option<Vec<String>>,
    output_dir: &String,
) -> (r: Result<CompileOutput, CompileError>)
    ensures
        ({
            let g = services@;
            let gen0 = tag_declared(named_view(g));
            match requested {
                None => (match r {
                    Ok(out) => drive_spec(gen0, decl_names(g), output_dir@) == Ok::<
                        (Seq<(Seq<char>, ServiceModel)>, Seq<(Seq<char>, Seq<char>)>),
                        CompileErrorModel,
                    >(out@),
                    Err(e) => drive_spec(gen0, decl_names(g), output_dir@) == Err::<
                        (Seq<(Seq<char>, ServiceModel)>, Seq<(Seq<char>, Seq<char>)>),
                        CompileErrorModel,
                    >(e@),
                }),
                Some(req) => if req@.len() == 0 {
                    (match r {
                        Ok(out) => drive_spec(gen0, decl_names(g), output_dir@) == Ok::<
                            (Seq<(Seq<char>, ServiceModel)>, Seq<(Seq<char>, Seq<char>)>),
                            CompileErrorModel,
                        >(out@),
                        Err(e) => drive_spec(gen0, decl_names(g), output_dir@) == Err::<
                            (Seq<(Seq<char>, ServiceModel)>, Seq<(Seq<char>, Seq<char>)>),
                            CompileErrorModel,
                        >(e@),
                    })
                } else if all_declared(g, req@) {
                    let en = reachable_set(g, str_seq_view(req@).to_set());
                    (match r {
                        Ok(out) => drive_spec(gen0, en, output_dir@) == Ok::<
                            (Seq<(Seq<char>, ServiceModel)>, Seq<(Seq<char>, Seq<char>)>),
                            CompileErrorModel,
                        >(out@),
                        Err(e) => drive_spec(gen0, en, output_dir@) == Err::<
                            (Seq<(Seq<char>, ServiceModel)>, Seq<(Seq<char>, Seq<char>)>),
                            CompileErrorModel,
                        >(e@),
                    })
                } else {
                    (match r {
                        Ok(_) => false,
                        Err(e) => unknown_err(g, req@, e@),
                    })
                },
            }
        }),
{
    let ghost g = services@;
    let ghost reqg = requested;
    let enabled = match resolve(&services, requested) {
        Err(e) => {
            return Err(e);
        },
        Ok(v) => v,
    };
    proof {
        match reqg {
            None => {
                assert(str_seq_view(enabled@).to_set() =~= decl_names(g));
            },
            Some(req) if req@.len() == 0 => {
                assert(str_seq_view(enabled@).to_set() =~= decl_names(g));
            },
            Some(req) => {
                let roots = str_seq_view(req@).to_set();
                assert forall|n: Seq<char>|
                    str_seq_view(enabled@).to_set().contains(n) == reachable_set(
                        g,
                        roots,
                    ).contains(n) by {
                    if str_seq_view(enabled@).to_set().contains(n) {
                        let idx = choose|idx: int|
                            0 <= idx < str_seq_view(enabled@).len() && str_seq_view(enabled@)[idx]
                                == n;
                        assert(enabled@[idx]@ == n);
                        assert(reachable(g, roots, n));
                    }
                }
                assert(str_seq_view(enabled@).to_set() =~= reachable_set(g, roots));
            },
        }
    }
    let tagged = tag_initial(services);
    drive(tagged, &enabled, output_dir)
}

} // verus!
