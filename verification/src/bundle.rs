//! Bundle membership: whether a finalized service is visible at the
//! top level of the output bundle, and under what name.

use vstd::prelude::*;
use crate::model::{Service, ServiceModel, str_seq_view};
use crate::driver::named_view;

verus! {

/// Whether a service appears in the user-facing bundle: visible under a
/// name, hidden, or excluded with a warning (a consuming pipeline tail
/// without a pipeline name).
pub enum BundleDecision {
    Visible(String),
    Hidden,
    Warn,
}

/// Ghost view of a `BundleDecision`.
#[verifier::ext_equal]
pub ghost enum BundleDecisionModel {
    Visible(Seq<char>),
    Hidden,
    Warn,
}

impl View for BundleDecision {
    type V = BundleDecisionModel;

    open spec fn view(&self) -> BundleDecisionModel {
        match self {
            BundleDecision::Visible(n) => BundleDecisionModel::Visible(n@),
            BundleDecision::Hidden => BundleDecisionModel::Hidden,
            BundleDecision::Warn => BundleDecisionModel::Warn,
        }
    }
}

/// The classification rule: a producer is never visible; a consumer-only
/// tail is visible under its pipeline name, or excluded with a warning
/// if it has none; a standalone service is visible under its own name.
pub open spec fn classify_spec(name: Seq<char>, s: ServiceModel) -> BundleDecisionModel {
    if s.producer_for is Some {
        BundleDecisionModel::Hidden
    } else if s.consumer_for is Some {
        match s.pipeline_name {
            Some(p) => BundleDecisionModel::Visible(p),
            None => BundleDecisionModel::Warn,
        }
    } else {
        BundleDecisionModel::Visible(name)
    }
}

/// Classifies one finalized record for bundle membership.
pub fn classify(name: &String, service: &Service) -> (r: BundleDecision)
    ensures
        r@ == classify_spec(name@, service@),
{
    if service.producer_for.is_some() {
        BundleDecision::Hidden
    } else if service.consumer_for.is_some() {
        match &service.pipeline_name {
            Some(p) => BundleDecision::Visible(p.clone()),
            None => BundleDecision::Warn,
        }
    } else {
        BundleDecision::Visible(name.clone())
    }
}

/// The bundle marker names of a sequence of finalized records, in
/// emission order: one per `Visible` decision.
pub open spec fn bundle_names_spec(v: Seq<(Seq<char>, ServiceModel)>) -> Seq<Seq<char>>
    decreases v.len(),
{
    if v.len() == 0 {
        Seq::empty()
    } else {
        (match classify_spec(v[0].0, v[0].1) {
            BundleDecisionModel::Visible(n) => seq![n],
            _ => Seq::empty(),
        }) + bundle_names_spec(v.drop_first())
    }
}

/// One more record appends its marker, if any.
proof fn lemma_bundle_names_push(v: Seq<(Seq<char>, ServiceModel)>, x: (Seq<char>, ServiceModel))
    ensures
        bundle_names_spec(v.push(x)) == bundle_names_spec(v) + (match classify_spec(x.0, x.1) {
            BundleDecisionModel::Visible(n) => seq![n],
            _ => Seq::<Seq<char>>::empty(),
        }),
    decreases v.len(),
{
    let tail = match classify_spec(x.0, x.1) {
        BundleDecisionModel::Visible(n) => seq![n],
        _ => Seq::<Seq<char>>::empty(),
    };
    if v.len() == 0 {
        assert(v.push(x)[0] == x);
        assert(v.push(x).drop_first() =~= Seq::<(Seq<char>, ServiceModel)>::empty());
        assert(bundle_names_spec(Seq::<(Seq<char>, ServiceModel)>::empty())
            =~= Seq::<Seq<char>>::empty());
        assert(bundle_names_spec(v.push(x)) =~= tail);
        assert(bundle_names_spec(v) + tail =~= tail);
    } else {
        assert(v.push(x)[0] == v[0]);
        assert(v.push(x).drop_first() =~= v.drop_first().push(x));
        lemma_bundle_names_push(v.drop_first(), x);
        assert((match classify_spec(v[0].0, v[0].1) {
            BundleDecisionModel::Visible(n) => seq![n],
            _ => Seq::<Seq<char>>::empty(),
        }) + (bundle_names_spec(v.drop_first()) + tail) =~= (match classify_spec(v[0].0, v[0].1) {
            BundleDecisionModel::Visible(n) => seq![n],
            _ => Seq::<Seq<char>>::empty(),
        }) + bundle_names_spec(v.drop_first()) + tail);
    }
}

/// Collects the bundle marker names of the emitted records, in order.
#[verifier::loop_isolation(false)]
pub fn bundle_entries(services: &Vec<(String, Service)>) -> (r: Vec<String>)
    ensures
        str_seq_view(r@) == bundle_names_spec(named_view(services@)),
{
    let ghost g = named_view(services@);
    let mut r: Vec<String> = Vec::new();
    let mut i: usize = 0;
    proof {
        assert(g.take(0) =~= Seq::<(Seq<char>, ServiceModel)>::empty());
        assert(str_seq_view(r@) =~= bundle_names_spec(g.take(0)));
    }
    while i < services.len()
        invariant
            i <= services@.len(),
            str_seq_view(r@) == bundle_names_spec(g.take(i as int)),
        decreases services@.len() - i,
    {
        let ghost r0 = r@;
        match classify(&services[i].0, &services[i].1) {
            BundleDecision::Visible(n) => {
                r.push(n);
            },
            BundleDecision::Hidden => {},
            BundleDecision::Warn => {},
        }
        proof {
            assert(g.take(i + 1) =~= g.take(i as int).push(g[i as int]));
            lemma_bundle_names_push(g.take(i as int), g[i as int]);
            assert(g[i as int] == (services@[i as int].0@, services@[i as int].1@));
            assert(str_seq_view(r@) =~= bundle_names_spec(g.take(i + 1)));
        }
        i += 1;
    }
    proof {
        assert(g.take(services@.len() as int) =~= g);
    }
    r
}

} // verus!
