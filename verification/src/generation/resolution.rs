//! The order in which a problem family's parameters get their values: each
//! parameter in turn, the parameters that its fixed value or its two bounds
//! refer to first. The values themselves are numbers drawn and computed by
//! the caller in exactly this order, so that a seed always draws the same.
use vstd::prelude::*;

use vstd::set_lib::{lemma_int_range, lemma_len_subset, set_int_range};

use crate::knowledge::problem_family::{
    bound_ref, dangling_spec, family_outcome, family_outcome_rest, first_dangling, has_param_cycle, is_param_cycle,
    names_of, opt_bound_v, param_edge, params_v, refs_of, spec_v, ParamV,
};
use crate::knowledge::raw::RawProblemFamilyFrontmatter;
use crate::knowledge::types::{Bound, ParameterSpec, ProblemFamily};
use crate::knowledge::error::KnowledgeError;
use crate::text::{first_where, lemma_first_where, lemma_first_where_none, str_eq};

verus! {

/// Why a family's parameters cannot be resolved.
#[derive(Debug, Clone, Copy, PartialEq, Eq, Structural)]
pub enum ResolutionError {
    /// The parameter (by position) has no fixed value and not both bounds.
    Underspecified(usize),
    /// The parameter refers to a parameter that does not exist.
    Dangling(usize),
    /// The parameter is reached again while its own references are resolved.
    Cycle(usize),
}

pub type ParamsV = Seq<(Seq<char>, ParamV)>;

/// The names that resolving a parameter follows: the reference of its fixed
/// value, or, with both bounds, those of its minimum and then its maximum;
/// `None` when it has neither a fixed value nor both bounds.
pub open spec fn follows(p: ParamV) -> Option<Seq<Seq<char>>> {
    if p.1 is Some {
        Some(bound_ref(p.1))
    } else if p.2 is Some && p.3 is Some {
        Some(bound_ref(p.2) + bound_ref(p.3))
    } else {
        None
    }
}

pub open spec fn named(ps: ParamsV, name: Seq<char>) -> spec_fn(int) -> bool {
    |j: int| ps[j].0 == name
}

/// The position of the first parameter called `name`.
#[verifier::opaque]
pub open spec fn position_of(ps: ParamsV, name: Seq<char>) -> Option<int> {
    first_where(ps.len() as int, named(ps, name))
}

/// The positions that resolving parameter `i` visits, in order.
pub open spec fn children(ps: ParamsV, i: int) -> Result<Seq<int>, ResolutionError> {
    match follows(ps[i].1) {
        None => Err(ResolutionError::Underspecified(i as usize)),
        Some(names) => if forall|k: int| 0 <= k < names.len() ==> #[trigger] position_of(ps, names[k]) is Some {
            Ok(Seq::new(names.len(), |k: int| position_of(ps, names[k])->0))
        } else {
            Err(ResolutionError::Dangling(i as usize))
        },
    }
}

/// The positions on `path` are distinct parameter positions.
pub open spec fn path_ok(n: int, path: Seq<int>) -> bool {
    path.no_duplicates() && forall|k: int| 0 <= k < path.len() ==> 0 <= #[trigger] path[k] < n
}

/// A path of distinct positions below `n` has at most `n` entries.
proof fn lemma_path_len(n: int, path: Seq<int>)
    requires
        path_ok(n, path),
        0 <= n,
    ensures
        path.len() <= n,
{
    path.unique_seq_to_set();
    lemma_int_range(0, n);
    assert(path.to_set().subset_of(set_int_range(0, n)));
    lemma_len_subset(path.to_set(), set_int_range(0, n));
}

pub proof fn lemma_path_bound(n: int, path: Seq<int>, i: int)
    requires
        path_ok(n, path),
        0 <= i < n,
        !path.contains(i),
    ensures
        path.len() + 1 <= n,
{
    let p = path.push(i);
    assert(p.no_duplicates()) by {
        assert forall|a: int, b: int| 0 <= a < b < p.len() implies p[a] != p[b] by {
            if b == path.len() {
                assert(path[a] == p[a]);
            }
        }
    }
    p.unique_seq_to_set();
    lemma_int_range(0, n);
    assert(p.to_set().subset_of(set_int_range(0, n)));
    lemma_len_subset(p.to_set(), set_int_range(0, n));
}

/// Resolving parameter `i`, while the parameters on `path` wait for their
/// references, with the positions in `order` already resolved (in that
/// order): a resolved parameter is done; one on the path is a cycle;
/// otherwise its children are resolved and then it is. (A path that repeats
/// a position, or a position out of range, never arises from
/// `resolution_spec`; ruling it out bounds the depth of the recursion.)
pub open spec fn resolve(ps: ParamsV, path: Seq<int>, i: int, st: Result<Seq<int>, ResolutionError>) -> Result<
    Seq<int>,
    ResolutionError,
>
    decreases ps.len() - path.len(), 0int, 0int,
{
    match st {
        Err(e) => Err(e),
        Ok(order) => if order.contains(i) {
            Ok(order)
        } else if path.contains(i) {
            Err(ResolutionError::Cycle(i as usize))
        } else if !(path_ok(ps.len() as int, path) && 0 <= i < ps.len()) {
            Err(ResolutionError::Cycle(i as usize))
        } else {
            match children(ps, i) {
                Err(e) => Err(e),
                Ok(cs) => {
                    proof {
                        lemma_path_bound(ps.len() as int, path, i);
                    }
                    match resolve_all(ps, path.push(i), cs, 0, Ok(order)) {
                        Err(e) => Err(e),
                        Ok(o) => Ok(o.push(i)),
                    }
                },
            }
        },
    }
}

/// Resolving `cs[k..]` in turn.
pub open spec fn resolve_all(
    ps: ParamsV,
    path: Seq<int>,
    cs: Seq<int>,
    k: int,
    st: Result<Seq<int>, ResolutionError>,
) -> Result<Seq<int>, ResolutionError>
    decreases ps.len() - path.len(), 1int, cs.len() - k,
{
    if k < 0 || k >= cs.len() || ps.len() < path.len() {
        st
    } else {
        resolve_all(ps, path, cs, k + 1, resolve(ps, path, cs[k], st))
    }
}

/// The order of the whole family: every parameter in turn.
pub open spec fn resolution_spec(ps: ParamsV) -> Result<Seq<int>, ResolutionError> {
    resolve_all(ps, Seq::empty(), Seq::new(ps.len(), |i: int| i), 0, Ok(Seq::empty()))
}

fn name_position(params: &Vec<(String, ParameterSpec)>, name: &String) -> (r: Option<usize>)
    ensures
        match position_of(params_v(params@), name@) {
            Some(i) => r matches Some(j) && j as int == i,
            None => r is None,
        },
        r matches Some(i) ==> i < params.len(),
{
    let ghost pv = params_v(params@);
    let ghost p = named(pv, name@);
    let mut i: usize = 0;
    while i < params.len()
        invariant
            pv == params_v(params@),
            p == named(pv, name@),
            i <= params.len(),
            forall|l: int| 0 <= l < i ==> !#[trigger] p(l),
        decreases params.len() - i,
    {
        if str_eq(params[i].0.as_str(), name.as_str()) {
            proof {
                assert(pv[i as int].0 == params@[i as int].0@);
                lemma_first_where(pv.len() as int, p, i as int);
                reveal(position_of);
            }
            return Some(i);
        }
        assert(pv[i as int].0 == params@[i as int].0@);
        i += 1;
    }
    proof {
        lemma_first_where_none(pv.len() as int, p);
        reveal(position_of);
    }
    None
}

fn push_reference(out: &mut Vec<String>, b: &Option<Bound>)
    ensures
        final(out)@.map_values(|s: String| s@) == old(out)@.map_values(|s: String| s@) + bound_ref(opt_bound_v(*b)),
{
    let ghost before = out@;
    match b {
        Some(Bound::Reference { parameter, .. }) => {
            out.push(parameter.clone());
            assert(out@.map_values(|s: String| s@) =~= before.map_values(|s: String| s@) + seq![parameter@]);
        },
        _ => {
            assert(out@.map_values(|s: String| s@) =~= before.map_values(|s: String| s@) + Seq::<Seq<char>>::empty());
        },
    }
}

/// The positions that resolving parameter `i` visits.
fn children_of(params: &Vec<(String, ParameterSpec)>, i: usize) -> (r: Result<Vec<usize>, ResolutionError>)
    requires
        i < params.len(),
    ensures
        match (r, children(params_v(params@), i as int)) {
            (Ok(v), Ok(cs)) => v@.map_values(|x: usize| x as int) == cs && forall|k: int|
                0 <= k < v.len() ==> #[trigger] v@[k] < params.len(),
            (Err(e), Err(f)) => e == f,
            _ => false,
        },
{
    let ghost pv = params_v(params@);
    let spec = &params[i].1;
    assert(pv[i as int].1 == spec_v(*spec));
    let mut names: Vec<String> = Vec::new();
    if spec.value.is_some() {
        push_reference(&mut names, &spec.value);
    } else if spec.min.is_some() && spec.max.is_some() {
        push_reference(&mut names, &spec.min);
        push_reference(&mut names, &spec.max);
    } else {
        return Err(ResolutionError::Underspecified(i));
    }
    let ghost ns = names@.map_values(|s: String| s@);
    assert(follows(pv[i as int].1) == Some(ns));
    let mut out: Vec<usize> = Vec::new();
    let mut k: usize = 0;
    while k < names.len()
        invariant
            pv == params_v(params@),
            ns == names@.map_values(|s: String| s@),
            follows(pv[i as int].1) == Some(ns),
            k <= names.len(),
            out.len() == k,
            forall|l: int| 0 <= l < k ==> #[trigger] position_of(pv, ns[l]) is Some,
            forall|l: int| 0 <= l < k ==> out@[l] as int == position_of(pv, #[trigger] ns[l])->0,
            forall|l: int| 0 <= l < k ==> #[trigger] out@[l] < params.len(),
        decreases names.len() - k,
    {
        assert(ns[k as int] == names@[k as int]@);
        match name_position(params, &names[k]) {
            Some(j) => {
                let ghost before = out@;
                out.push(j);
                assert(out@[k as int] as int == position_of(pv, ns[k as int])->0);
                assert forall|l: int| 0 <= l < k implies out@[l] == before[l] by {}
            },
            None => {
                assert(position_of(pv, ns[k as int]) is None);
                return Err(ResolutionError::Dangling(i));
            },
        }
        k += 1;
    }
    assert(out@.map_values(|x: usize| x as int) =~= Seq::new(ns.len(), |l: int| position_of(pv, ns[l])->0));
    Ok(out)
}

/// The positions in `order` as integers.
pub open spec fn order_v(order: Seq<usize>) -> Seq<int> {
    order.map_values(|x: usize| x as int)
}

/// The marks agree with the ghost path and the order so far.
pub open spec fn marks_ok(
    n: int,
    path: Seq<int>,
    on_path: Seq<bool>,
    done: Seq<bool>,
    order: Seq<usize>,
) -> bool {
    &&& on_path.len() == n
    &&& done.len() == n
    &&& path_ok(n, path)
    &&& forall|j: int| 0 <= j < n ==> (#[trigger] on_path[j] <==> path.contains(j))
    &&& forall|j: int| 0 <= j < n ==> (#[trigger] done[j] <==> order_v(order).contains(j))
    &&& forall|k: int| 0 <= k < order.len() ==> #[trigger] order[k] < n
}

fn visit(
    params: &Vec<(String, ParameterSpec)>,
    Ghost(path): Ghost<Seq<int>>,
    on_path: &mut Vec<bool>,
    done: &mut Vec<bool>,
    order: &mut Vec<usize>,
    i: usize,
) -> (r: Result<(), ResolutionError>)
    requires
        i < params.len(),
        marks_ok(params.len() as int, path, old(on_path)@, old(done)@, old(order)@),
    ensures
        final(on_path)@ == old(on_path)@,
        r is Ok ==> marks_ok(params.len() as int, path, final(on_path)@, final(done)@, final(order)@),
        match resolve(params_v(params@), path, i as int, Ok(order_v(old(order)@))) {
            Ok(o) => r is Ok && order_v(final(order)@) == o,
            Err(e) => r == Err::<(), ResolutionError>(e),
        },
    decreases params.len() - path.len(), 0int, 0int,
{
    let ghost pv = params_v(params@);
    let ghost n = params.len() as int;
    if done[i] {
        return Ok(());
    }
    if on_path[i] {
        return Err(ResolutionError::Cycle(i));
    }
    let cs = match children_of(params, i) {
        Ok(cs) => cs,
        Err(e) => {
            return Err(e);
        },
    };
    proof {
        lemma_path_bound(n, path, i as int);
    }
    let ghost path2 = path.push(i as int);
    on_path.set(i, true);
    proof {
        assert forall|a: int, b: int| 0 <= a < b < path2.len() implies path2[a] != path2[b] by {
            if b == path.len() {
                assert(path[a] == path2[a]);
            }
        }
        assert forall|j: int| 0 <= j < n implies (#[trigger] on_path@[j] <==> path2.contains(j)) by {
            if j == i as int {
                assert(path2[path.len() as int] == j);
            } else if path2.contains(j) {
                let k = choose|k: int| 0 <= k < path2.len() && path2[k] == j;
                assert(path[k] == j);
            } else if path.contains(j) {
                let k = choose|k: int| 0 <= k < path.len() && path[k] == j;
                assert(path2[k] == j);
            }
        }
    }
    let res = visit_all(params, Ghost(path2), on_path, done, order, &cs, 0);
    on_path.set(i, false);
    proof {
        assert(on_path@ =~= old(on_path)@);
    }
    match res {
        Err(e) => Err(e),
        Ok(()) => {
            let ghost before = order@;
            order.push(i);
            done.set(i, true);
            proof {
                assert(order_v(order@) =~= order_v(before).push(i as int));
                assert forall|j: int| 0 <= j < n implies (#[trigger] done@[j] <==> order_v(order@).contains(j)) by {
                    if j == i as int {
                        assert(order_v(order@)[before.len() as int] == j);
                    } else if order_v(order@).contains(j) {
                        let k = choose|k: int| 0 <= k < order_v(order@).len() && order_v(order@)[k] == j;
                        assert(order_v(before)[k] == j);
                    } else if order_v(before).contains(j) {
                        let k = choose|k: int| 0 <= k < order_v(before).len() && order_v(before)[k] == j;
                        assert(order_v(order@)[k] == j);
                    }
                }
            }
            Ok(())
        },
    }
}

fn visit_all(
    params: &Vec<(String, ParameterSpec)>,
    Ghost(path): Ghost<Seq<int>>,
    on_path: &mut Vec<bool>,
    done: &mut Vec<bool>,
    order: &mut Vec<usize>,
    cs: &Vec<usize>,
    k: usize,
) -> (r: Result<(), ResolutionError>)
    requires
        k <= cs.len(),
        forall|l: int| 0 <= l < cs.len() ==> #[trigger] cs@[l] < params.len(),
        marks_ok(params.len() as int, path, old(on_path)@, old(done)@, old(order)@),
    ensures
        final(on_path)@ == old(on_path)@,
        r is Ok ==> marks_ok(params.len() as int, path, final(on_path)@, final(done)@, final(order)@),
        match resolve_all(params_v(params@), path, order_v(cs@), k as int, Ok(order_v(old(order)@))) {
            Ok(o) => r is Ok && order_v(final(order)@) == o,
            Err(e) => r == Err::<(), ResolutionError>(e),
        },
    decreases params.len() - path.len(), 1int, cs.len() - k,
{
    proof {
        lemma_path_len(params.len() as int, path);
    }
    if k == cs.len() {
        return Ok(());
    }
    assert(order_v(cs@)[k as int] == cs@[k as int] as int);
    match visit(params, Ghost(path), on_path, done, order, cs[k]) {
        Err(e) => {
            proof {
                lemma_resolve_all_err(params_v(params@), path, order_v(cs@), k + 1, e);
            }
            Err(e)
        },
        Ok(()) => visit_all(params, Ghost(path), on_path, done, order, cs, k + 1),
    }
}

proof fn lemma_resolve_all_err(ps: ParamsV, path: Seq<int>, cs: Seq<int>, k: int, e: ResolutionError)
    ensures
        resolve_all(ps, path, cs, k, Err(e)) == Err::<Seq<int>, ResolutionError>(e),
    decreases cs.len() - k,
{
    if k < 0 || k >= cs.len() || ps.len() < path.len() {
    } else {
        assert(resolve(ps, path, cs[k], Err(e)) == Err::<Seq<int>, ResolutionError>(e));
        lemma_resolve_all_err(ps, path, cs, k + 1, e);
    }
}

/// What resolving parameter `i` waits for, when it can be resolved at all.
pub open spec fn deps(ps: ParamsV, i: int) -> Seq<int> {
    match children(ps, i) {
        Ok(cs) => cs,
        Err(_) => Seq::empty(),
    }
}

/// `o` lists distinct parameter positions, each after every parameter that
/// it refers to.
pub open spec fn dependency_order(ps: ParamsV, o: Seq<int>) -> bool {
    &&& o.no_duplicates()
    &&& forall|a: int| 0 <= a < o.len() ==> 0 <= #[trigger] o[a] < ps.len()
    &&& forall|a: int| 0 <= a < o.len() ==> #[trigger] children(ps, o[a]) is Ok
    &&& forall|a: int, c: int|
        0 <= a < o.len() && 0 <= c < deps(ps, o[a]).len() ==> o.take(a).contains(#[trigger] deps(ps, o[a])[c])
}

proof fn lemma_prefix_contains(o: Seq<int>, p: Seq<int>, x: int)
    requires
        p.len() <= o.len(),
        o.take(p.len() as int) == p,
        p.contains(x),
    ensures
        o.contains(x),
{
    let k = choose|k: int| 0 <= k < p.len() && p[k] == x;
    assert(o[k] == x);
}

proof fn lemma_resolve_order(ps: ParamsV, path: Seq<int>, i: int, order: Seq<int>)
    requires
        dependency_order(ps, order),
        resolve(ps, path, i, Ok(order)) is Ok,
    ensures
        ({
            let o = resolve(ps, path, i, Ok(order))->Ok_0;
            &&& dependency_order(ps, o)
            &&& order.len() <= o.len()
            &&& o.take(order.len() as int) == order
            &&& o.contains(i)
            &&& forall|x: int| o.contains(x) && !order.contains(x) ==> !path.contains(x)
        }),
    decreases ps.len() - path.len(), 0int, 0int,
{
    assert(order.take(order.len() as int) =~= order);
    if order.contains(i) {
    } else {
        let cs = children(ps, i)->Ok_0;
        lemma_path_bound(ps.len() as int, path, i);
        let path2 = path.push(i);
        lemma_resolve_all_order(ps, path2, cs, 0, order);
        let o1 = resolve_all(ps, path2, cs, 0, Ok(order))->Ok_0;
        let o = o1.push(i);
        assert(path2.contains(i)) by {
            assert(path2[path.len() as int] == i);
        }
        assert(!o1.contains(i));
        assert(o.no_duplicates()) by {
            assert forall|a: int, b: int| 0 <= a < b < o.len() implies o[a] != o[b] by {
                if b == o1.len() {
                    assert(o1[a] == o[a]);
                } else {
                    assert(o1[a] == o[a] && o1[b] == o[b]);
                }
            }
        }
        assert forall|a: int| 0 <= a < o.len() implies 0 <= #[trigger] o[a] < ps.len() && children(ps, o[a]) is Ok by {
            if a < o1.len() {
                assert(o1[a] == o[a]);
            }
        }
        assert forall|a: int, c: int| 0 <= a < o.len() && 0 <= c < deps(ps, o[a]).len() implies o.take(a).contains(
            #[trigger] deps(ps, o[a])[c],
        ) by {
            if a < o1.len() {
                assert(o1[a] == o[a]);
                assert(o.take(a) =~= o1.take(a));
            } else {
                assert(o.take(a) =~= o1);
                assert(deps(ps, o[a]) == cs);
                assert(0 <= c < cs.len() ==> o1.contains(cs[c]));
            }
        }
        assert(o.take(order.len() as int) =~= o1.take(order.len() as int));
        assert(o[o1.len() as int] == i);
        assert forall|x: int| o.contains(x) && !order.contains(x) implies !path.contains(x) by {
            if x != i {
                let k = choose|k: int| 0 <= k < o.len() && o[k] == x;
                assert(o1[k] == x);
                if path.contains(x) {
                    let m = choose|m: int| 0 <= m < path.len() && path[m] == x;
                    assert(path2[m] == x);
                }
            }
        }
    }
}

proof fn lemma_resolve_all_order(ps: ParamsV, path: Seq<int>, cs: Seq<int>, k: int, order: Seq<int>)
    requires
        dependency_order(ps, order),
        resolve_all(ps, path, cs, k, Ok(order)) is Ok,
        0 <= k,
        path.len() <= ps.len(),
    ensures
        ({
            let o = resolve_all(ps, path, cs, k, Ok(order))->Ok_0;
            &&& dependency_order(ps, o)
            &&& order.len() <= o.len()
            &&& o.take(order.len() as int) == order
            &&& forall|c: int| k <= c < cs.len() ==> o.contains(#[trigger] cs[c])
            &&& forall|x: int| o.contains(x) && !order.contains(x) ==> !path.contains(x)
        }),
    decreases ps.len() - path.len(), 1int, cs.len() - k,
{
    assert(order.take(order.len() as int) =~= order);
    if k >= cs.len() {
    } else {
        let st1 = resolve(ps, path, cs[k], Ok(order));
        if st1 is Err {
            lemma_resolve_all_err(ps, path, cs, k + 1, st1->Err_0);
        }
        lemma_resolve_order(ps, path, cs[k], order);
        let o1 = st1->Ok_0;
        lemma_resolve_all_order(ps, path, cs, k + 1, o1);
        let o = resolve_all(ps, path, cs, k + 1, Ok(o1))->Ok_0;
        assert(o.take(order.len() as int) =~= o1.take(order.len() as int)) by {
            assert(o.take(o1.len() as int) == o1);
            assert forall|j: int| 0 <= j < order.len() implies o.take(order.len() as int)[j] == o1.take(order.len() as int)[j] by {
                assert(o.take(o1.len() as int)[j] == o[j]);
            }
        }
        lemma_prefix_contains(o, o1, cs[k]);
        assert forall|x: int| o.contains(x) && !order.contains(x) implies !path.contains(x) by {
            if o1.contains(x) {
            }
        }
    }
}

/// Law: when a family's parameters can be resolved, the order lists every
/// parameter exactly once, and each after every parameter that its fixed
/// value or its bounds refer to.
pub proof fn lemma_resolution_is_dependency_order(ps: ParamsV)
    requires
        resolution_spec(ps) is Ok,
    ensures
        dependency_order(ps, resolution_spec(ps)->Ok_0),
        forall|i: int| 0 <= i < ps.len() ==> resolution_spec(ps)->Ok_0.contains(i),
{
    let all = Seq::new(ps.len(), |i: int| i);
    assert(dependency_order(ps, Seq::<int>::empty()));
    lemma_resolve_all_order(ps, Seq::empty(), all, 0, Seq::empty());
    assert forall|i: int| 0 <= i < ps.len() implies resolution_spec(ps)->Ok_0.contains(i) by {
        assert(all[i] == i);
    }
}

/// Resolving stopped at most at a parameter without a value or both bounds.
pub open spec fn resolvable(r: Result<Seq<int>, ResolutionError>) -> bool {
    r is Ok || r matches Err(ResolutionError::Underspecified(_))
}

/// Parameter `a` refers to parameter `b` (by positions).
pub open spec fn pedge(ps: ParamsV, a: int, b: int) -> bool {
    param_edge(ps, ps[a].0, ps[b].0)
}

/// Each parameter on `path` refers to the next, and the last one to `i`.
pub open spec fn chain(ps: ParamsV, path: Seq<int>, i: int) -> bool {
    &&& forall|k: int| 0 <= k < path.len() - 1 ==> #[trigger] pedge(ps, path[k], path[k + 1])
    &&& path.len() > 0 ==> pedge(ps, path[path.len() - 1], i)
}

/// Every reference of a family without dangling references names one of
/// its parameters.
proof fn lemma_no_dangling_child(ps: ParamsV, i: int, k: int)
    requires
        dangling_spec(ps) is None,
        0 <= i < ps.len(),
        0 <= k < refs_of(ps[i].1).len(),
    ensures
        position_of(ps, refs_of(ps[i].1)[k]) is Some,
        ps[position_of(ps, refs_of(ps[i].1)[k])->0].0 == refs_of(ps[i].1)[k],
        0 <= position_of(ps, refs_of(ps[i].1)[k])->0 < ps.len(),
{
    let f = |i: int| first_dangling(ps, i) is Some;
    if f(i) {
        assert(exists|j: int| 0 <= j < ps.len() && #[trigger] f(j));
    }
    let name = refs_of(ps[i].1)[k];
    let g = |k: int| !names_of(ps).contains(refs_of(ps[i].1)[k]);
    if g(k) {
        assert(exists|l: int| 0 <= l < refs_of(ps[i].1).len() && #[trigger] g(l));
    }
    assert(names_of(ps).contains(name));
    let j = choose|j: int| 0 <= j < names_of(ps).len() && names_of(ps)[j] == name;
    let p = named(ps, name);
    assert(p(j));
    lemma_first_where_some_exists(ps.len() as int, p, j);
    reveal(position_of);
}

proof fn lemma_first_where_some_exists(n: int, p: spec_fn(int) -> bool, j: int)
    requires
        0 <= j < n,
        p(j),
    ensures
        first_where(n, p) is Some,
        0 <= first_where(n, p)->0 < n,
        p(first_where(n, p)->0),
{
    assert(exists|l: int| 0 <= l < n && #[trigger] p(l));
    crate::text::lemma_first_where_some(n, p);
}

/// The names a parameter's resolution follows are among its references.
proof fn lemma_follows_refs(p: ParamV)
    requires
        follows(p) is Some,
    ensures
        forall|k: int| 0 <= k < follows(p)->0.len() ==> refs_of(p).contains(#[trigger] follows(p)->0[k]),
{
    let names = follows(p)->0;
    if p.1 is Some {
        assert(refs_of(p) =~= names + (bound_ref(p.2) + bound_ref(p.3)));
        assert forall|k: int| 0 <= k < names.len() implies refs_of(p).contains(#[trigger] names[k]) by {
            assert(refs_of(p)[k] == names[k]);
        }
    } else {
        assert(refs_of(p) =~= names);
        assert forall|k: int| 0 <= k < names.len() implies refs_of(p).contains(#[trigger] names[k]) by {
            assert(refs_of(p)[k] == names[k]);
        }
    }
}

/// In a family without dangling references, resolving a parameter never
/// finds a dangling reference, and each position it goes on to is a
/// parameter that it refers to.
proof fn lemma_children_valid(ps: ParamsV, i: int)
    requires
        dangling_spec(ps) is None,
        0 <= i < ps.len(),
    ensures
        !(children(ps, i) matches Err(ResolutionError::Dangling(_))),
        children(ps, i) is Ok ==> forall|k: int| 0 <= k < children(ps, i)->Ok_0.len() ==> {
            let j = #[trigger] children(ps, i)->Ok_0[k];
            0 <= j < ps.len() && pedge(ps, i, j)
        },
{
    if follows(ps[i].1) is Some {
        let names = follows(ps[i].1)->0;
        lemma_follows_refs(ps[i].1);
        assert forall|k: int| 0 <= k < names.len() implies #[trigger] position_of(ps, names[k]) is Some && {
            let j = position_of(ps, names[k])->0;
            0 <= j < ps.len() && pedge(ps, i, j)
        } by {
            assert(refs_of(ps[i].1).contains(names[k]));
            let m = choose|m: int| 0 <= m < refs_of(ps[i].1).len() && refs_of(ps[i].1)[m] == names[k];
            lemma_no_dangling_child(ps, i, m);
            let j = position_of(ps, names[k])->0;
            assert(ps[i].0 == ps[i].0 && refs_of(ps[i].1).contains(ps[j].0));
        }
    }
}

proof fn lemma_path_cycle(ps: ParamsV, path: Seq<int>, i: int)
    requires
        chain(ps, path, i),
        path.contains(i),
        forall|k: int| 0 <= k < path.len() ==> 0 <= #[trigger] path[k] < ps.len(),
    ensures
        has_param_cycle(ps),
{
    let m = choose|m: int| 0 <= m < path.len() && path[m] == i;
    let seg = path.subrange(m, path.len() as int).push(i);
    let w = seg.map_values(|x: int| ps[x].0);
    let l = seg.len();
    assert(w[0] == ps[path[m]].0);
    assert(w[l - 1] == ps[i].0);
    assert forall|k: int| 0 <= k < w.len() - 1 implies #[trigger] param_edge(ps, w[k], w[k + 1]) by {
        assert(w[k] == ps[seg[k]].0 && w[k + 1] == ps[seg[k + 1]].0);
        if k + 1 < l - 1 {
            assert(seg[k] == path[m + k] && seg[k + 1] == path[m + k + 1]);
            assert(pedge(ps, path[m + k], path[m + k + 1]));
        } else {
            assert(seg[k] == path[path.len() - 1] && seg[k + 1] == i);
        }
    }
    assert(is_param_cycle(ps, w));
}

proof fn lemma_resolve_resolvable(ps: ParamsV, path: Seq<int>, i: int, st: Result<Seq<int>, ResolutionError>)
    requires
        resolvable(st),
        dangling_spec(ps) is None,
        !has_param_cycle(ps),
        path_ok(ps.len() as int, path),
        0 <= i < ps.len(),
        chain(ps, path, i),
    ensures
        resolvable(resolve(ps, path, i, st)),
    decreases ps.len() - path.len(), 0int, 0int,
{
    if st is Ok {
        let order = st->Ok_0;
        if order.contains(i) {
        } else if path.contains(i) {
            lemma_path_cycle(ps, path, i);
        } else {
            lemma_children_valid(ps, i);
            if children(ps, i) is Ok {
                let cs = children(ps, i)->Ok_0;
                lemma_path_bound(ps.len() as int, path, i);
                let path2 = path.push(i);
                assert(path_ok(ps.len() as int, path2)) by {
                    assert forall|a: int, b: int| 0 <= a < b < path2.len() implies path2[a] != path2[b] by {
                        if b == path.len() {
                            assert(path[a] == path2[a]);
                        }
                    }
                }
                assert forall|c: int| 0 <= c < cs.len() implies 0 <= #[trigger] cs[c] < ps.len() && chain(
                    ps,
                    path2,
                    cs[c],
                ) by {
                    assert forall|k: int| 0 <= k < path2.len() - 1 implies #[trigger] pedge(ps, path2[k], path2[k + 1]) by {
                        if k + 1 < path.len() {
                            assert(path2[k] == path[k] && path2[k + 1] == path[k + 1]);
                        } else {
                            assert(path2[k] == path[path.len() - 1] && path2[k + 1] == i);
                        }
                    }
                    assert(path2[path2.len() - 1] == i);
                }
                lemma_resolve_all_resolvable(ps, path2, cs, 0, Ok(order));
            }
        }
    }
}

proof fn lemma_resolve_all_resolvable(
    ps: ParamsV,
    path: Seq<int>,
    cs: Seq<int>,
    k: int,
    st: Result<Seq<int>, ResolutionError>,
)
    requires
        resolvable(st),
        dangling_spec(ps) is None,
        !has_param_cycle(ps),
        path_ok(ps.len() as int, path),
        0 <= k,
        forall|c: int| 0 <= c < cs.len() ==> 0 <= #[trigger] cs[c] < ps.len() && chain(ps, path, cs[c]),
    ensures
        resolvable(resolve_all(ps, path, cs, k, st)),
    decreases ps.len() - path.len(), 1int, cs.len() - k,
{
    if k < cs.len() && ps.len() >= path.len() {
        lemma_resolve_resolvable(ps, path, cs[k], st);
        lemma_resolve_all_resolvable(ps, path, cs, k + 1, resolve(ps, path, cs[k], st));
    }
}

/// Law: when every parameter reference names a parameter and no parameter
/// depends on itself through references, resolution succeeds, or stops at
/// a parameter that has neither a value nor both bounds.
pub proof fn lemma_checked_references_resolve(ps: ParamsV)
    requires
        dangling_spec(ps) is None,
        !has_param_cycle(ps),
    ensures
        resolvable(resolution_spec(ps)),
{
    let all = Seq::new(ps.len(), |i: int| i);
    assert forall|c: int| 0 <= c < all.len() implies 0 <= #[trigger] all[c] < ps.len() && chain(
        ps,
        Seq::<int>::empty(),
        all[c],
    ) by {}
    lemma_resolve_all_resolvable(ps, Seq::empty(), all, 0, Ok(Seq::empty()));
}

/// Law: the parameters of every family that loading accepts resolve, or
/// stop at a parameter that has neither a value nor both bounds; generation
/// never meets a missing or circular reference.
pub proof fn lemma_loaded_family_resolves(
    raw: RawProblemFamilyFrontmatter,
    body: Seq<char>,
    r: Result<ProblemFamily, KnowledgeError>,
)
    requires
        family_outcome(raw, body, r),
        r is Ok,
    ensures
        resolvable(resolution_spec(params_v(r->Ok_0.parameters@))),
{
    let pv = crate::knowledge::problem_family::parameters_spec(raw.parameters@)->Ok_0;
    assert(dangling_spec(pv) is None && !has_param_cycle(pv));
    assert(params_v(r->Ok_0.parameters@) == pv);
    lemma_checked_references_resolve(pv);
}

/// The positions of the parameters in the order they are resolved, or why
/// they cannot be.
pub fn resolution_order(params: &Vec<(String, ParameterSpec)>) -> (r: Result<Vec<usize>, ResolutionError>)
    ensures
        match resolution_spec(params_v(params@)) {
            Ok(o) => r matches Ok(v) && order_v(v@) == o,
            Err(e) => r == Err::<Vec<usize>, ResolutionError>(e),
        },
{
    let n = params.len();
    let mut on_path: Vec<bool> = Vec::new();
    let mut done: Vec<bool> = Vec::new();
    let mut all: Vec<usize> = Vec::new();
    let mut j: usize = 0;
    while j < n
        invariant
            j <= n,
            n == params.len(),
            on_path.len() == j,
            done.len() == j,
            all.len() == j,
            forall|l: int| 0 <= l < j ==> !(#[trigger] on_path@[l]),
            forall|l: int| 0 <= l < j ==> !(#[trigger] done@[l]),
            forall|l: int| 0 <= l < j ==> #[trigger] all@[l] == l,
        decreases n - j,
    {
        on_path.push(false);
        done.push(false);
        all.push(j);
        j += 1;
    }
    let mut order: Vec<usize> = Vec::new();
    proof {
        assert(order_v(all@) =~= Seq::new(n as nat, |i: int| i));
        assert(order_v(order@) =~= Seq::<int>::empty());
        assert(params_v(params@).len() == n);
        assert(path_ok(n as int, Seq::<int>::empty()));
        assert forall|l: int| 0 <= l < n implies (#[trigger] on_path@[l] <==> Seq::<int>::empty().contains(l)) by {}
        assert forall|l: int| 0 <= l < n implies (#[trigger] done@[l] <==> order_v(order@).contains(l)) by {}
    }
    match visit_all(params, Ghost(Seq::empty()), &mut on_path, &mut done, &mut order, &all, 0) {
        Ok(()) => Ok(order),
        Err(e) => Err(e),
    }
}

} // verus!
