//! Enabled-set resolution: the transitive closure of an explicit
//! enable-list over declared dependency edges, or the full declared
//! name set when no list is given.

use vstd::prelude::*;
use vstd::seq_lib::*;
use vstd::set_lib::*;
use crate::model::{CompileError, CompileErrorModel, Service, ServiceModel, str_seq_view};

verus! {

/// The declared names of a graph, in declaration order.
pub open spec fn name_seq(g: Seq<(String, Service)>) -> Seq<Seq<char>> {
    g.map_values(|p: (String, Service)| p.0@)
}

/// The set of declared names of a graph.
pub open spec fn decl_names(g: Seq<(String, Service)>) -> Set<Seq<char>> {
    name_seq(g).to_set()
}

/// The first declaration of `n` in `g`, if any.
pub open spec fn lookup_spec(g: Seq<(String, Service)>, n: Seq<char>) -> Option<ServiceModel>
    decreases g.len(),
{
    if g.len() == 0 {
        None
    } else if g[0].0@ == n {
        Some(g[0].1@)
    } else {
        lookup_spec(g.drop_first(), n)
    }
}

/// The declared dependencies of `n`, or empty if `n` is undeclared or
/// declares none.
pub open spec fn dep_seq(g: Seq<(String, Service)>, n: Seq<char>) -> Seq<Seq<char>> {
    match lookup_spec(g, n) {
        Some(m) => match m.dependencies {
            Some(d) => d,
            None => Seq::empty(),
        },
        None => Seq::empty(),
    }
}

/// The dependency edge targets of `n`, as a set.
pub open spec fn dep_set(g: Seq<(String, Service)>, n: Seq<char>) -> Set<Seq<char>> {
    dep_seq(g, n).to_set()
}

/// `n` is reachable from `roots` in at most `k` dependency steps.
pub open spec fn reaches(
    g: Seq<(String, Service)>,
    roots: Set<Seq<char>>,
    n: Seq<char>,
    k: nat,
) -> bool
    decreases k,
{
    if roots.contains(n) {
        true
    } else if k == 0 {
        false
    } else {
        exists|m: Seq<char>|
            reaches(g, roots, m, (k - 1) as nat) && #[trigger] dep_set(g, m).contains(n)
    }
}

/// `n` is reachable from `roots` through dependency edges.
pub open spec fn reachable(g: Seq<(String, Service)>, roots: Set<Seq<char>>, n: Seq<char>) -> bool {
    exists|k: nat| reaches(g, roots, n, k)
}

/// A set closed under dependency edges: no edge leaves it.
pub open spec fn dep_closed(g: Seq<(String, Service)>, s: Set<Seq<char>>) -> bool {
    forall|m: Seq<char>, d: Seq<char>|
        s.contains(m) && #[trigger] dep_set(g, m).contains(d) ==> s.contains(d)
}

/// The views of a sequence of names, pairwise distinct.
pub open spec fn distinct_names(v: Seq<String>) -> bool {
    forall|i: int, j: int| #![trigger v[i], v[j]] 0 <= i < j < v.len() ==> v[i]@ != v[j]@
}

/// A root is reachable in zero steps.
pub proof fn lemma_root_reachable(
    g: Seq<(String, Service)>,
    roots: Set<Seq<char>>,
    n: Seq<char>,
)
    requires
        roots.contains(n),
    ensures
        reachable(g, roots, n),
{
    assert(reaches(g, roots, n, 0));
}

/// One dependency step preserves reachability.
pub proof fn lemma_reachable_step(
    g: Seq<(String, Service)>,
    roots: Set<Seq<char>>,
    m: Seq<char>,
    d: Seq<char>,
)
    requires
        reachable(g, roots, m),
        dep_set(g, m).contains(d),
    ensures
        reachable(g, roots, d),
{
    let k = choose|k: nat| reaches(g, roots, m, k);
    assert(reaches(g, roots, m, ((k + 1) - 1) as nat));
    assert(reaches(g, roots, d, k + 1));
}

/// Every name reachable from `roots` lies in any dependency-closed set
/// that contains the roots.
pub proof fn lemma_reaches_in_closed(
    g: Seq<(String, Service)>,
    roots: Set<Seq<char>>,
    s: Set<Seq<char>>,
    n: Seq<char>,
    k: nat,
)
    requires
        roots.subset_of(s),
        dep_closed(g, s),
        reaches(g, roots, n, k),
    ensures
        s.contains(n),
    decreases k,
{
    if roots.contains(n) {
    } else {
        let m = choose|m: Seq<char>|
            reaches(g, roots, m, (k - 1) as nat) && #[trigger] dep_set(g, m).contains(n);
        lemma_reaches_in_closed(g, roots, s, m, (k - 1) as nat);
    }
}

/// A name is declared exactly when lookup finds a record for it.
pub proof fn lemma_lookup_decl(g: Seq<(String, Service)>, n: Seq<char>)
    ensures
        lookup_spec(g, n) is Some <==> decl_names(g).contains(n),
    decreases g.len(),
{
    if g.len() == 0 {
        assert(!name_seq(g).contains(n));
    } else if g[0].0@ == n {
        assert(name_seq(g)[0] == n);
        assert(name_seq(g).contains(n));
    } else {
        lemma_lookup_decl(g.drop_first(), n);
        assert(name_seq(g.drop_first()) =~= name_seq(g).drop_first());
        if decl_names(g).contains(n) {
            let i = choose|i: int| 0 <= i < name_seq(g).len() && name_seq(g)[i] == n;
            assert(i != 0);
            assert(name_seq(g).drop_first()[i - 1] == n);
            assert(name_seq(g.drop_first()).contains(n));
        }
        if decl_names(g.drop_first()).contains(n) {
            let i = choose|i: int|
                0 <= i < name_seq(g.drop_first()).len() && name_seq(g.drop_first())[i] == n;
            assert(name_seq(g)[i + 1] == n);
        }
    }
}

/// True exactly when some element of `v` views to `name`.
pub fn contains_name(v: &Vec<String>, name: &String) -> (r: bool)
    ensures
        r == str_seq_view(v@).to_set().contains(name@),
{
    let mut i: usize = 0;
    while i < v.len()
        invariant
            i <= v@.len(),
            forall|j: int| 0 <= j < i ==> #[trigger] v@[j]@ != name@,
        decreases v@.len() - i,
    {
        if v[i] == *name {
            assert(str_seq_view(v@)[i as int] == name@);
            assert(str_seq_view(v@).contains(name@));
            return true;
        }
        i += 1;
    }
    assert forall|j: int| 0 <= j < v@.len() implies #[trigger] str_seq_view(v@)[j] != name@ by {
        assert(v@[j]@ != name@);
    }
    assert(!str_seq_view(v@).contains(name@));
    false
}

/// The first record declared under `name`, if any.
pub fn lookup<'a>(g: &'a Vec<(String, Service)>, name: &String) -> (r: Option<&'a Service>)
    ensures
        match r {
            Some(s) => lookup_spec(g@, name@) == Some(s@),
            None => lookup_spec(g@, name@) is None,
        },
{
    let mut i: usize = 0;
    proof {
        assert(g@.skip(0) =~= g@);
    }
    while i < g.len()
        invariant
            i <= g@.len(),
            lookup_spec(g@, name@) == lookup_spec(g@.skip(i as int), name@),
        decreases g@.len() - i,
    {
        if g[i].0 == *name {
            assert(g@.skip(i as int)[0] == g@[i as int]);
            return Some(&g[i].1);
        }
        proof {
            assert(g@.skip(i as int)[0] == g@[i as int]);
            assert(g@.skip(i as int).drop_first() =~= g@.skip(i + 1));
        }
        i += 1;
    }
    proof {
        assert(g@.skip(i as int).len() == 0);
    }
    None
}

/// Membership in a pushed sequence.
proof fn lemma_contains_push<A>(s: Seq<A>, x: A, y: A)
    ensures
        s.push(x).contains(y) <==> (s.contains(y) || y == x),
{
    if s.contains(y) {
        let i = choose|i: int| 0 <= i < s.len() && s[i] == y;
        assert(s.push(x)[i] == y);
    }
    if y == x {
        assert(s.push(x)[s.len() as int] == y);
    }
    if s.push(x).contains(y) {
        let i = choose|i: int| 0 <= i < s.push(x).len() && s.push(x)[i] == y;
        if i < s.len() {
            assert(s[i] == y);
        }
    }
}

/// Views commute with `push`.
proof fn lemma_view_push(v: Seq<String>, x: String)
    ensures
        str_seq_view(v.push(x)) =~= str_seq_view(v).push(x@),
{
}

/// Pushing a name inserts its view into the name set.
proof fn lemma_view_push_to_set(v: Seq<String>, x: String)
    ensures
        str_seq_view(v.push(x)).to_set() =~= str_seq_view(v).to_set().insert(x@),
{
    lemma_view_push(v, x);
    assert forall|n: Seq<char>|
        str_seq_view(v.push(x)).to_set().contains(n) == str_seq_view(v).to_set().insert(
            x@,
        ).contains(n) by {
        lemma_contains_push(str_seq_view(v), x@, n);
    }
}

/// Views commute with `drop_last`.
proof fn lemma_view_drop_last(v: Seq<String>)
    requires
        v.len() > 0,
    ensures
        str_seq_view(v.drop_last()) =~= str_seq_view(v).drop_last(),
{
}

/// Every name of `v` but possibly the last is a name of `v.drop_last()`.
proof fn lemma_drop_last_contains(s: Seq<Seq<char>>, y: Seq<char>)
    requires
        s.len() > 0,
        s.contains(y),
    ensures
        s.drop_last().contains(y) || y == s.last(),
{
    let i = choose|i: int| 0 <= i < s.len() && s[i] == y;
    if i < s.len() - 1 {
        assert(s.drop_last()[i] == y);
    }
}

/// Membership in a concatenation.
proof fn lemma_contains_add(a: Seq<Seq<char>>, b: Seq<Seq<char>>, y: Seq<char>)
    ensures
        (a + b).contains(y) <==> (a.contains(y) || b.contains(y)),
{
    if a.contains(y) {
        let i = choose|i: int| 0 <= i < a.len() && a[i] == y;
        assert((a + b)[i] == y);
    }
    if b.contains(y) {
        let i = choose|i: int| 0 <= i < b.len() && b[i] == y;
        assert((a + b)[a.len() + i] == y);
    }
    if (a + b).contains(y) {
        let i = choose|i: int| 0 <= i < (a + b).len() && (a + b)[i] == y;
        if i < a.len() {
            assert(a[i] == y);
        } else {
            assert(b[i - a.len()] == y);
        }
    }
}

/// All elements of `v` are reachable from `roots`.
pub open spec fn all_reachable(
    g: Seq<(String, Service)>,
    roots: Set<Seq<char>>,
    v: Seq<String>,
) -> bool {
    forall|i: int| 0 <= i < v.len() ==> reachable(g, roots, #[trigger] v[i]@)
}

/// Every root is already collected or still pending.
spec fn inv_roots_covered(roots: Set<Seq<char>>, res: Seq<String>, tv: Seq<String>) -> bool {
    forall|n: Seq<char>| #[trigger]
        roots.contains(n) ==> str_seq_view(res).contains(n) || str_seq_view(tv).contains(n)
}

/// Every dependency edge out of a collected name lands in the collected
/// or the pending names.
spec fn inv_closed_pending(
    g: Seq<(String, Service)>,
    res: Seq<String>,
    tv: Seq<String>,
) -> bool {
    forall|m: Seq<char>, d: Seq<char>|
        str_seq_view(res).contains(m) && #[trigger] dep_set(g, m).contains(d)
            ==> str_seq_view(res).contains(d) || str_seq_view(tv).contains(d)
}

/// The transitive closure of `enabled` over declared dependency edges,
/// or every declared name when `enabled` is absent.
#[verifier::loop_isolation(false)]
pub fn transitive_closure(services: &Vec<(String, Service)>, enabled: Option<Vec<String>>) -> (res:
    Vec<String>)
    ensures
        distinct_names(res@),
        match enabled {
            None => str_seq_view(res@).to_set() == decl_names(services@),
            Some(req) => {
                let roots = str_seq_view(req@).to_set();
                &&& all_reachable(services@, roots, res@)
                &&& forall|n: Seq<char>|
                    reachable(services@, roots, n) ==> str_seq_view(res@).contains(n)
            },
        },
{
    let ghost g = services@;
    match enabled {
        None => {
            let mut res: Vec<String> = Vec::new();
            let mut i: usize = 0;
            while i < services.len()
                invariant
                    i <= g.len(),
                    forall|n: Seq<char>| #[trigger]
                        str_seq_view(res@).contains(n) <==> name_seq(g).take(i as int).contains(n),
                    distinct_names(res@),
                decreases g.len() - i,
            {
                let ghost res0 = res@;
                let name = &services[i].0;
                if !contains_name(&res, name) {
                    res.push(name.clone());
                    proof {
                        lemma_view_push(res0, *name);
                        assert forall|i2: int, j2: int| #![trigger res@[i2], res@[j2]]
                            0 <= i2 < j2 < res@.len() implies res@[i2]@ != res@[j2]@ by {
                            if j2 == res@.len() - 1 {
                                assert(str_seq_view(res0)[i2] == res0[i2]@);
                            }
                        }
                    }
                }
                proof {
                    let taken = name_seq(g).take(i as int);
                    assert(name_seq(g).take(i + 1) =~= taken.push(g[i as int].0@));
                    assert forall|n: Seq<char>| #[trigger]
                        str_seq_view(res@).contains(n) implies name_seq(g).take(
                        i + 1,
                    ).contains(n) by {
                        lemma_contains_push(str_seq_view(res0), name@, n);
                        lemma_contains_push(taken, g[i as int].0@, n);
                    }
                    assert forall|n: Seq<char>| #[trigger]
                        name_seq(g).take(i + 1).contains(n) implies str_seq_view(
                        res@,
                    ).contains(n) by {
                        lemma_contains_push(str_seq_view(res0), name@, n);
                        lemma_contains_push(taken, g[i as int].0@, n);
                    }
                }
                i += 1;
            }
            proof {
                assert(name_seq(g).take(g.len() as int) =~= name_seq(g));
                assert(str_seq_view(res@).to_set() =~= decl_names(g));
            }
            res
        },
        Some(req) => {
            let ghost roots = str_seq_view(req@).to_set();
            let mut res: Vec<String> = Vec::new();
            let mut to_visit: Vec<String> = req;
            proof {
                assert forall|i: int| 0 <= i < to_visit@.len() implies reachable(
                    g,
                    roots,
                    to_visit@[i]@,
                ) by {
                    assert(str_seq_view(to_visit@)[i] == to_visit@[i]@);
                    lemma_root_reachable(g, roots, to_visit@[i]@);
                }
            }
            while to_visit.len() > 0
                invariant
                    all_reachable(g, roots, res@),
                    all_reachable(g, roots, to_visit@),
                    inv_roots_covered(roots, res@, to_visit@),
                    inv_closed_pending(g, res@, to_visit@),
                    distinct_names(res@),
                decreases
                        decl_names(g).difference(str_seq_view(res@).to_set()).len(),
                        to_visit@.len(),
            {
                let ghost res0 = res@;
                let ghost tv0 = to_visit@;
                let name = to_visit.pop().unwrap();
                proof {
                    assert(tv0[tv0.len() - 1]@ == name@);
                    lemma_view_drop_last(tv0);
                }
                if !contains_name(&res, &name) {
                    let ghost tv1 = to_visit@;
                    let mut pushed_deps = false;
                    match lookup(services, &name) {
                        Some(s) => {
                            if let Some(deps) = &s.dependencies {
                                let mut k: usize = 0;
                                while k < deps.len()
                                    invariant
                                        k <= deps@.len(),
                                        to_visit@ == tv1 + deps@.subrange(0, k as int),
                                    decreases deps@.len() - k,
                                {
                                    let d = deps[k].clone();
                                    to_visit.push(d);
                                    proof {
                                        assert(to_visit@ =~= tv1 + deps@.subrange(0, k + 1));
                                    }
                                    k += 1;
                                }
                                proof {
                                    assert(deps@.subrange(0, deps@.len() as int) =~= deps@);
                                    assert(dep_seq(g, name@) =~= str_seq_view(deps@));
                                }
                            }
                            proof {
                                if s.dependencies is None {
                                    assert(dep_seq(g, name@) =~= Seq::<Seq<char>>::empty());
                                }
                            }
                        },
                        None => {
                            proof {
                                assert(dep_seq(g, name@) =~= Seq::<Seq<char>>::empty());
                                lemma_lookup_decl(g, name@);
                            }
                        },
                    }
                    let ghost tv2 = to_visit@;
                    res.push(name);
                    proof {
                        lemma_view_push(res0, name);
                        // the pending list now holds the old entries (minus the
                        // popped one) plus every dependency of `name`
                        let added = dep_seq(g, name@);
                        assert(str_seq_view(tv2) =~= str_seq_view(tv1) + added);
                        // reachability of everything pending
                        assert forall|i: int| 0 <= i < tv2.len() implies reachable(
                            g,
                            roots,
                            tv2[i]@,
                        ) by {
                            if i < tv1.len() {
                                assert(tv1[i] == tv0[i]);
                            } else {
                                assert(str_seq_view(tv2)[i] == added[i - tv1.len()]);
                                assert(added.contains(tv2[i]@));
                                assert(dep_set(g, name@).contains(tv2[i]@));
                                lemma_reachable_step(g, roots, name@, tv2[i]@);
                            }
                        }
                        // roots still covered
                        assert forall|n: Seq<char>| #[trigger] roots.contains(n) implies
                            str_seq_view(res@).contains(n) || str_seq_view(tv2).contains(n) by {
                            lemma_contains_push(str_seq_view(res0), name@, n);
                            if str_seq_view(tv0).contains(n) {
                                lemma_drop_last_contains(str_seq_view(tv0), n);
                                if str_seq_view(tv1).contains(n) {
                                    lemma_contains_add(str_seq_view(tv1), added, n);
                                }
                            }
                        }
                        // closedness up to pending entries
                        assert forall|m: Seq<char>, d: Seq<char>|
                            str_seq_view(res@).contains(m) && #[trigger] dep_set(g, m).contains(d)
                            implies str_seq_view(res@).contains(d) || str_seq_view(tv2).contains(
                            d,
                        ) by {
                            lemma_contains_push(str_seq_view(res0), name@, m);
                            lemma_contains_push(str_seq_view(res0), name@, d);
                            if m == name@ {
                                lemma_contains_add(str_seq_view(tv1), added, d);
                            } else {
                                if str_seq_view(tv0).contains(d) {
                                    lemma_drop_last_contains(str_seq_view(tv0), d);
                                    if str_seq_view(tv1).contains(d) {
                                        lemma_contains_add(str_seq_view(tv1), added, d);
                                    }
                                }
                            }
                        }
                        // distinctness
                        assert forall|i: int, j: int| #![trigger res@[i], res@[j]]
                            0 <= i < j < res@.len() implies res@[i]@ != res@[j]@ by {
                            if j == res@.len() - 1 {
                                assert(str_seq_view(res0)[i] == res0[i]@);
                            }
                        }
                        // termination: either a declared name was newly collected,
                        // or the pending list shrank while nothing was added
                        lemma_lookup_decl(g, name@);
                        seq_to_set_is_finite::<Seq<char>>(name_seq(g));
                        lemma_view_push_to_set(res0, name);
                        if decl_names(g).contains(name@) {
                            decl_names(g).lemma_set_insert_diff_decreases(
                                str_seq_view(res0).to_set(),
                                name@,
                            );
                        } else {
                            assert(decl_names(g).difference(str_seq_view(res@).to_set())
                                =~= decl_names(g).difference(str_seq_view(res0).to_set()));
                            assert(tv2.len() < tv0.len());
                        }
                    }
                } else {
                    proof {
                        assert forall|n: Seq<char>| #[trigger] roots.contains(n) implies
                            str_seq_view(res@).contains(n) || str_seq_view(to_visit@).contains(
                            n,
                        ) by {
                            if str_seq_view(tv0).contains(n) {
                                lemma_drop_last_contains(str_seq_view(tv0), n);
                            }
                        }
                        assert forall|m: Seq<char>, d: Seq<char>|
                            str_seq_view(res@).contains(m) && #[trigger] dep_set(g, m).contains(d)
                            implies str_seq_view(res@).contains(d) || str_seq_view(
                            to_visit@,
                        ).contains(d) by {
                            if str_seq_view(tv0).contains(d) {
                                lemma_drop_last_contains(str_seq_view(tv0), d);
                            }
                        }
                    }
                }
            }
            proof {
                assert(str_seq_view(to_visit@).len() == 0);
                let s = str_seq_view(res@).to_set();
                assert forall|n: Seq<char>| reachable(g, roots, n) implies str_seq_view(
                    res@,
                ).contains(n) by {
                    let k = choose|k: nat| reaches(g, roots, n, k);
                    assert(dep_closed(g, s));
                    lemma_reaches_in_closed(g, roots, s, n, k);
                }
            }
            res
        },
    }
}

/// A resolution that admits every declared name, without duplicates.
pub open spec fn resolved_all(
    g: Seq<(String, Service)>,
    r: Result<Vec<String>, CompileError>,
) -> bool {
    match r {
        Ok(res) => str_seq_view(res@).to_set() == decl_names(g) && distinct_names(res@),
        Err(_) => false,
    }
}

/// Every requested name is declared.
pub open spec fn all_declared(g: Seq<(String, Service)>, req: Seq<String>) -> bool {
    forall|i: int| 0 <= i < req.len() ==> decl_names(g).contains(#[trigger] req[i]@)
}

/// A correctly resolved enabled set for the roots `roots`: sound and
/// complete for reachability, closed under dependency edges, and free
/// of duplicates.
pub open spec fn resolved_ok(
    g: Seq<(String, Service)>,
    roots: Set<Seq<char>>,
    res: Seq<String>,
) -> bool {
    &&& all_reachable(g, roots, res)
    &&& (forall|n: Seq<char>| reachable(g, roots, n) ==> str_seq_view(res).to_set().contains(n))
    &&& roots.subset_of(str_seq_view(res).to_set())
    &&& dep_closed(g, str_seq_view(res).to_set())
    &&& distinct_names(res)
}

/// The error reports the first requested name that is not declared.
pub open spec fn unknown_err(g: Seq<(String, Service)>, req: Seq<String>, e: CompileErrorModel) -> bool {
    exists|i: int| unknown_err_at(g, req, e, i)
}

/// The error reports the requested name at `i`, the first undeclared one.
pub open spec fn unknown_err_at(
    g: Seq<(String, Service)>,
    req: Seq<String>,
    e: CompileErrorModel,
    i: int,
) -> bool {
    &&& 0 <= i < req.len()
    &&& e == CompileErrorModel::UnknownService(req[i]@)
    &&& !decl_names(g).contains(req[i]@)
    &&& (forall|j: int| 0 <= j < i ==> decl_names(g).contains(#[trigger] req[j]@))
}

/// Resolve the enabled set: every requested name must be declared, and
/// the result is the transitive closure of the request over dependency
/// edges — or every declared name when the request is empty or absent.
#[verifier::loop_isolation(false)]
pub fn resolve(services: &Vec<(String, Service)>, requested: Option<Vec<String>>) -> (r: Result<
    Vec<String>,
    CompileError,
>)
    ensures
        match requested {
            None => resolved_all(services@, r),
            Some(req) => if req@.len() == 0 {
                resolved_all(services@, r)
            } else {
                match r {
                    Ok(res) => all_declared(services@, req@) && resolved_ok(
                        services@,
                        str_seq_view(req@).to_set(),
                        res@,
                    ),
                    Err(e) => !all_declared(services@, req@) && unknown_err(services@, req@, e@),
                }
            },
        },
{
    let ghost g = services@;
    match requested {
        None => Ok(transitive_closure(services, None)),
        Some(req) => {
            if req.len() == 0 {
                return Ok(transitive_closure(services, None));
            }
            let mut i: usize = 0;
            while i < req.len()
                invariant
                    i <= req@.len(),
                    forall|j: int| 0 <= j < i ==> decl_names(g).contains(#[trigger] req@[j]@),
                decreases req@.len() - i,
            {
                let present = match lookup(services, &req[i]) {
                    Some(_) => true,
                    None => false,
                };
                proof {
                    lemma_lookup_decl(g, req@[i as int]@);
                }
                if !present {
                    let ghost wi = i as int;
                    let bad = req[i].clone();
                    let err = CompileError::UnknownService(bad);
                    proof {
                        assert(!decl_names(g).contains(req@[wi]@));
                        assert(unknown_err_at(g, req@, err@, wi));
                        assert(unknown_err(g, req@, err@));
                    }
                    return Err(err);
                }
                i += 1;
            }
            let ghost roots = str_seq_view(req@).to_set();
            let res = transitive_closure(services, Some(req));
            proof {
                let out = str_seq_view(res@).to_set();
                assert forall|n: Seq<char>| #[trigger] roots.contains(n) implies out.contains(
                    n,
                ) by {
                    lemma_root_reachable(g, roots, n);
                }
                assert forall|m: Seq<char>, d: Seq<char>|
                    out.contains(m) && #[trigger] dep_set(g, m).contains(d) implies out.contains(
                    d,
                ) by {
                    let idx = choose|idx: int|
                        0 <= idx < str_seq_view(res@).len() && str_seq_view(res@)[idx] == m;
                    assert(res@[idx]@ == m);
                    assert(reachable(g, roots, m));
                    lemma_reachable_step(g, roots, m, d);
                }
            }
            Ok(res)
        },
    }
}

} // verus!
