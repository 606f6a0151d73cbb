//! Problem families: validation of their frontmatter (parameters, parameter
//! references, constraints, canonical solution, hints) and assembly with the
//! parsed body.
use vstd::prelude::*;

use crate::graph::{adj_ok, find_cycle, first_cycle, has_index_cycle, index_cycle, node_ints};
use crate::text::{text_lt, first_where, lemma_first_where, lemma_first_where_none, lemma_first_where_some, str_eq};

use super::constraint::{
    constraint_spec, expr_is, is_parameter_name, parse_constraint, term_v, tokenize_spec, ComparisonV, ConstraintExpr,
    Term, TermV, Tok,
};
use super::error::KnowledgeError;
use super::identifier::{concept_ids, first_invalid, objective_ids, ConceptId, GeneratorId, ObjectiveId, ProblemFamilyId};
use super::problem_family_body::{parse_problem_family_body, problem_family_error, problem_family_headings};
use super::provenance::{convert_provenance_refs, opt_v, provenance_error_is, provenance_spec, ref_v, RefV};
use super::sections::body_spec;
use crate::modules::identifier::valid_identifier;
use super::raw::{RawBound, RawCanonicalSolution, RawHint, RawParameterSpec, RawProblemFamilyFrontmatter};
use super::types::{
    Bound, CanonicalSolution, DifficultyRange, FloatBits, GeneratorRef, Hint, ParameterSpec, ParameterType,
    ProblemFamily, ProblemFamilyStatus, ProvenanceRef, ResponseType,
};

verus! {

/// A bound as the specification sees it.
pub enum BoundV {
    Literal(u64),
    Reference(Seq<char>, u64),
}

pub open spec fn raw_bound_v(b: RawBound) -> BoundV {
    match b {
        RawBound::Literal(v) => BoundV::Literal(v.bits),
        RawBound::Reference { parameter, offset } => BoundV::Reference(parameter@, offset.bits),
    }
}

pub open spec fn bound_v(b: Bound) -> BoundV {
    match b {
        Bound::Literal(v) => BoundV::Literal(v.bits),
        Bound::Reference { parameter, offset } => BoundV::Reference(parameter@, offset.bits),
    }
}

pub open spec fn opt_raw_bound_v(b: Option<RawBound>) -> Option<BoundV> {
    match b {
        Some(x) => Some(raw_bound_v(x)),
        None => None,
    }
}

pub open spec fn opt_bound_v(b: Option<Bound>) -> Option<BoundV> {
    match b {
        Some(x) => Some(bound_v(x)),
        None => None,
    }
}

/// A parameter: kind, value, min, max, description.
pub type ParamV = (ParameterType, Option<BoundV>, Option<BoundV>, Option<BoundV>, Option<Seq<char>>);

pub open spec fn spec_v(s: ParameterSpec) -> ParamV {
    (s.kind, opt_bound_v(s.value), opt_bound_v(s.min), opt_bound_v(s.max), opt_v(s.description))
}

pub open spec fn param_v(p: (String, ParameterSpec)) -> (Seq<char>, ParamV) {
    (p.0@, spec_v(p.1))
}

pub open spec fn params_v(ps: Seq<(String, ParameterSpec)>) -> Seq<(Seq<char>, ParamV)> {
    ps.map_values(|p: (String, ParameterSpec)| param_v(p))
}

pub open spec fn param_type_of(k: Seq<char>) -> Option<ParameterType> {
    if k == "integer"@ {
        Some(ParameterType::Integer)
    } else if k == "float"@ {
        Some(ParameterType::Float)
    } else {
        None
    }
}

/// An `f64`, given by its bits, is finite: its exponent bits are not all set
/// (as they are for the infinities and NaN).
pub open spec fn finite_bits(b: FloatBits) -> bool {
    (b.bits >> 52u64) & 0x7ffu64 != 0x7ffu64
}

fn is_finite(b: FloatBits) -> (r: bool)
    ensures
        r == finite_bits(b),
{
    (b.bits >> 52) & 0x7ff != 0x7ff
}

/// A bound's number (its literal, or its offset) is finite; no bound is.
pub open spec fn bound_finite(b: Option<RawBound>) -> bool {
    match b {
        None => true,
        Some(RawBound::Literal(v)) => finite_bits(v),
        Some(RawBound::Reference { offset, .. }) => finite_bits(offset),
    }
}

fn is_bound_finite(b: &Option<RawBound>) -> (r: bool)
    ensures
        r == bound_finite(*b),
{
    match b {
        None => true,
        Some(RawBound::Literal(v)) => is_finite(*v),
        Some(RawBound::Reference { offset, .. }) => is_finite(*offset),
    }
}

/// A parameter name reads, in a constraint, as exactly that one identifier.
pub open spec fn parameter_name(name: Seq<char>) -> bool {
    tokenize_spec(name) matches Ok(ts) && ts.len() == 1 && ts[0] == Tok::Ident(name)
}

/// Why a parameter is rejected.
pub enum ParamFailure {
    InvalidName(Seq<char>),
    UnknownType(Seq<char>),
    ValueAndBounds(Seq<char>),
    NonFinite(Seq<char>, Seq<char>),
}

/// One parameter: a name a constraint can refer to, a known type; a fixed
/// value excludes bounds; the numbers of its value, minimum and maximum (in
/// that order) are finite.
pub open spec fn param_spec(name: Seq<char>, raw: RawParameterSpec) -> Result<ParamV, ParamFailure> {
    if !parameter_name(name) {
        Err(ParamFailure::InvalidName(name))
    } else {
        match param_type_of(raw.kind@) {
            None => Err(ParamFailure::UnknownType(raw.kind@)),
            Some(kind) => if raw.value is Some && (raw.min is Some || raw.max is Some) {
                Err(ParamFailure::ValueAndBounds(name))
            } else if !bound_finite(raw.value) {
                Err(ParamFailure::NonFinite(name, "value"@))
            } else if !bound_finite(raw.min) {
                Err(ParamFailure::NonFinite(name, "min"@))
            } else if !bound_finite(raw.max) {
                Err(ParamFailure::NonFinite(name, "max"@))
            } else {
                Ok((kind, opt_raw_bound_v(raw.value), opt_raw_bound_v(raw.min), opt_raw_bound_v(raw.max), opt_v(raw.description)))
            },
        }
    }
}

pub open spec fn param_failure_is(e: KnowledgeError, entity_id: Seq<char>, f: ParamFailure) -> bool {
    match f {
        ParamFailure::InvalidName(n) => e matches KnowledgeError::InvalidParameterName { entity_id: x, parameter }
            && x@ == entity_id && parameter@ == n,
        ParamFailure::NonFinite(n, field) => e matches KnowledgeError::NonFiniteParameterBound {
            entity_id: x,
            parameter,
            field: fd,
        } && x@ == entity_id && parameter@ == n && fd@ == field,
        ParamFailure::UnknownType(v) => e matches KnowledgeError::UnknownParameterType { entity_id: x, value }
            && x@ == entity_id && value@ == v,
        ParamFailure::ValueAndBounds(n) => e matches KnowledgeError::ParameterValueAndBoundsConflict {
            entity_id: x,
            parameter,
        } && x@ == entity_id && parameter@ == n,
    }
}

/// The parameters, in order; the first rejected one decides.
pub open spec fn parameters_spec(raws: Seq<(String, RawParameterSpec)>) -> Result<Seq<(Seq<char>, ParamV)>, ParamFailure> {
    match first_where(raws.len() as int, |i: int| param_spec(raws[i].0@, raws[i].1) is Err) {
        Some(i) => Err(param_spec(raws[i].0@, raws[i].1)->Err_0),
        None => Ok(Seq::new(raws.len(), |i: int| (raws[i].0@, param_spec(raws[i].0@, raws[i].1)->Ok_0))),
    }
}

fn convert_bound(raw: RawBound) -> (r: Bound)
    ensures
        bound_v(r) == raw_bound_v(raw),
{
    match raw {
        RawBound::Literal(v) => Bound::Literal(v),
        RawBound::Reference { parameter, offset } => Bound::Reference { parameter, offset },
    }
}

fn convert_opt_bound(raw: Option<RawBound>) -> (r: Option<Bound>)
    ensures
        opt_bound_v(r) == opt_raw_bound_v(raw),
{
    match raw {
        Some(b) => Some(convert_bound(b)),
        None => None,
    }
}

fn convert_parameter(entity_id: &str, name: String, raw: RawParameterSpec) -> (r: Result<(String, ParameterSpec), KnowledgeError>)
    ensures
        match (r, param_spec(name@, raw)) {
            (Ok(p), Ok(v)) => param_v(p) == (name@, v),
            (Err(e), Err(f)) => param_failure_is(e, entity_id@, f),
            _ => false,
        },
{
    proof {
        reveal_strlit("integer");
        reveal_strlit("float");
        reveal_strlit("value");
        reveal_strlit("min");
        reveal_strlit("max");
    }
    if !is_parameter_name(name.as_str()) {
        return Err(KnowledgeError::InvalidParameterName { entity_id: entity_id.to_owned(), parameter: name });
    }
    let kind = if str_eq(raw.kind.as_str(), "integer") {
        ParameterType::Integer
    } else if str_eq(raw.kind.as_str(), "float") {
        ParameterType::Float
    } else {
        return Err(KnowledgeError::UnknownParameterType { entity_id: entity_id.to_owned(), value: raw.kind });
    };
    if raw.value.is_some() && (raw.min.is_some() || raw.max.is_some()) {
        return Err(KnowledgeError::ParameterValueAndBoundsConflict { entity_id: entity_id.to_owned(), parameter: name });
    }
    if !is_bound_finite(&raw.value) {
        return Err(KnowledgeError::NonFiniteParameterBound { entity_id: entity_id.to_owned(), parameter: name, field: "value" });
    }
    if !is_bound_finite(&raw.min) {
        return Err(KnowledgeError::NonFiniteParameterBound { entity_id: entity_id.to_owned(), parameter: name, field: "min" });
    }
    if !is_bound_finite(&raw.max) {
        return Err(KnowledgeError::NonFiniteParameterBound { entity_id: entity_id.to_owned(), parameter: name, field: "max" });
    }
    let value = convert_opt_bound(raw.value);
    let min = convert_opt_bound(raw.min);
    let max = convert_opt_bound(raw.max);
    Ok((name, ParameterSpec { kind, value, min, max, description: raw.description }))
}

/// Validates the raw parameters of problem family `entity_id`.
#[verifier::loop_isolation(false)]
pub fn convert_parameters(entity_id: &str, raw: Vec<(String, RawParameterSpec)>) -> (r: Result<
    Vec<(String, ParameterSpec)>,
    KnowledgeError,
>)
    ensures
        match (r, parameters_spec(raw@)) {
            (Ok(ps), Ok(v)) => params_v(ps@) == v,
            (Err(e), Err(f)) => param_failure_is(e, entity_id@, f),
            _ => false,
        },
{
    let ghost raws = raw@;
    let ghost bad = |i: int| param_spec(raws[i].0@, raws[i].1) is Err;
    let mut rest = raw;
    let _n = rest.len();
    let mut out: Vec<(String, ParameterSpec)> = Vec::new();
    let mut i: usize = 0;
    while rest.len() > 0
        invariant
            raws.len() <= usize::MAX,
            i + rest.len() == raws.len(),
            rest@ == raws.skip(i as int),
            out.len() == i,
            forall|l: int| 0 <= l < i ==> !#[trigger] bad(l),
            forall|l: int| 0 <= l < i ==> #[trigger] param_v(out@[l]) == (raws[l].0@, param_spec(raws[l].0@, raws[l].1)->Ok_0),
        decreases rest.len(),
    {
        let (name, spec) = rest.remove(0);
        assert(rest@ =~= raws.skip(i + 1));
        match convert_parameter(entity_id, name, spec) {
            Ok(p) => {
                out.push(p);
            },
            Err(e) => {
                proof {
                    assert(bad(i as int));
                    lemma_first_where(raws.len() as int, bad, i as int);
                }
                return Err(e);
            },
        }
        i += 1;
    }
    proof {
        lemma_first_where_none(raws.len() as int, bad);
        assert(params_v(out@) =~= Seq::new(raws.len(), |l: int| (raws[l].0@, param_spec(raws[l].0@, raws[l].1)->Ok_0)));
    }
    Ok(out)
}

pub open spec fn bound_ref(b: Option<BoundV>) -> Seq<Seq<char>> {
    match b {
        Some(BoundV::Reference(n, _)) => seq![n],
        _ => Seq::empty(),
    }
}

/// The parameters that parameter `p` refers to: its value, min, max bounds.
pub open spec fn refs_of(p: ParamV) -> Seq<Seq<char>> {
    bound_ref(p.1) + bound_ref(p.2) + bound_ref(p.3)
}

pub open spec fn names_of(ps: Seq<(Seq<char>, ParamV)>) -> Seq<Seq<char>> {
    ps.map_values(|p: (Seq<char>, ParamV)| p.0)
}

pub open spec fn names_distinct(ps: Seq<(Seq<char>, ParamV)>) -> bool {
    forall|i: int, j: int| 0 <= i < j < ps.len() ==> #[trigger] ps[i].0 != #[trigger] ps[j].0
}

pub open spec fn first_dangling(ps: Seq<(Seq<char>, ParamV)>, i: int) -> Option<int> {
    first_where(refs_of(ps[i].1).len() as int, |k: int| !names_of(ps).contains(refs_of(ps[i].1)[k]))
}

/// The first reference, in parameter order, to a parameter that does not
/// exist: (the referring parameter, the missing name).
pub open spec fn dangling_spec(ps: Seq<(Seq<char>, ParamV)>) -> Option<(Seq<char>, Seq<char>)> {
    match first_where(ps.len() as int, |i: int| first_dangling(ps, i) is Some) {
        Some(i) => Some((ps[i].0, refs_of(ps[i].1)[first_dangling(ps, i)->0])),
        None => None,
    }
}

pub open spec fn param_edge(ps: Seq<(Seq<char>, ParamV)>, a: Seq<char>, b: Seq<char>) -> bool {
    exists|i: int| 0 <= i < ps.len() && #[trigger] ps[i].0 == a && refs_of(ps[i].1).contains(b)
}

/// `w` is a closed walk of parameter references.
pub open spec fn is_param_cycle(ps: Seq<(Seq<char>, ParamV)>, w: Seq<Seq<char>>) -> bool {
    &&& w.len() >= 2
    &&& w[0] == w[w.len() - 1]
    &&& forall|k: int| 0 <= k < w.len() - 1 ==> #[trigger] param_edge(ps, w[k], w[k + 1])
}

pub open spec fn has_param_cycle(ps: Seq<(Seq<char>, ParamV)>) -> bool {
    exists|w: Seq<Seq<char>>| is_param_cycle(ps, w)
}

pub open spec fn string_views(v: Seq<String>) -> Seq<Seq<char>> {
    v.map_values(|s: String| s@)
}

/// The position of the parameter called `name`.
pub open spec fn name_index_of(ps: Seq<(Seq<char>, ParamV)>, name: Seq<char>) -> int {
    choose|j: int| 0 <= j < ps.len() && ps[j].0 == name
}

/// The reference graph over parameter positions: each parameter's value,
/// min and max references, in that order.
pub open spec fn ref_graph(ps: Seq<(Seq<char>, ParamV)>) -> Seq<Seq<usize>> {
    Seq::new(
        ps.len(),
        |i: int| Seq::new(refs_of(ps[i].1).len(), |m: int| name_index_of(ps, refs_of(ps[i].1)[m]) as usize),
    )
}

/// The names along the cycle that the search of the reference graph, from
/// each parameter in order, closes first.
pub open spec fn first_param_cycle(ps: Seq<(Seq<char>, ParamV)>) -> Seq<Seq<char>> {
    first_cycle(ref_graph(ps))->Err_0.map_values(|x: int| ps[x].0)
}

proof fn lemma_ref_graph(ps: Seq<(Seq<char>, ParamV)>, g: Seq<Seq<usize>>)
    requires
        adj_matches(ps, g),
        names_distinct(ps),
    ensures
        g == ref_graph(ps),
{
    let rg = ref_graph(ps);
    assert forall|i: int| 0 <= i < g.len() implies #[trigger] g[i] == rg[i] by {
        assert forall|m: int| 0 <= m < g[i].len() implies #[trigger] g[i][m] == rg[i][m] by {
            let j = g[i][m] as int;
            let name = refs_of(ps[i].1)[m];
            assert(ps[j].0 == name);
            let j2 = name_index_of(ps, name);
            assert(0 <= j2 < ps.len() && ps[j2].0 == name);
            if j < j2 {
                assert(ps[j].0 != ps[j2].0);
            } else if j2 < j {
                assert(ps[j2].0 != ps[j].0);
            }
        }
        assert(g[i] =~= rg[i]);
    }
    assert(g =~= rg);
}

/// `g` is the reference graph of `ps` over parameter positions.
pub open spec fn adj_matches(ps: Seq<(Seq<char>, ParamV)>, g: Seq<Seq<usize>>) -> bool {
    &&& g.len() == ps.len()
    &&& forall|i: int| 0 <= i < g.len() ==> (#[trigger] g[i]).len() == refs_of(ps[i].1).len()
    &&& forall|i: int, m: int|
        0 <= i < g.len() && 0 <= m < g[i].len() ==> #[trigger] g[i][m] < ps.len() && ps[g[i][m] as int].0
            == refs_of(ps[i].1)[m]
}

proof fn lemma_index_to_names(ps: Seq<(Seq<char>, ParamV)>, g: Seq<Seq<usize>>, c: Seq<usize>)
    requires
        adj_matches(ps, g),
        index_cycle(g, c),
    ensures
        is_param_cycle(ps, c.map_values(|x: usize| ps[x as int].0)),
{
    let w = c.map_values(|x: usize| ps[x as int].0);
    assert forall|k: int| 0 <= k < w.len() - 1 implies #[trigger] param_edge(ps, w[k], w[k + 1]) by {
        let i = c[k] as int;
        assert(g[i].contains(c[k + 1]));
        let m = choose|m: int| 0 <= m < g[i].len() && g[i][m] == c[k + 1];
        assert(ps[g[i][m] as int].0 == refs_of(ps[i].1)[m]);
        assert(ps[i].0 == w[k]);
    }
}

proof fn lemma_names_to_index(ps: Seq<(Seq<char>, ParamV)>, g: Seq<Seq<usize>>, w: Seq<Seq<char>>)
    requires
        adj_matches(ps, g),
        adj_ok(g),
        names_distinct(ps),
        is_param_cycle(ps, w),
    ensures
        has_index_cycle(g),
{
    let k0: int = 0;
    assert(param_edge(ps, w[k0], w[k0 + 1]));
    let idx = |x: Seq<char>| choose|i: int| 0 <= i < ps.len() && #[trigger] ps[i].0 == x;
    assert forall|k: int| 0 <= k < w.len() implies 0 <= #[trigger] idx(w[k]) < ps.len() && ps[idx(w[k])].0 == w[k] by {
        if k < w.len() - 1 {
            assert(param_edge(ps, w[k], w[k + 1]));
        } else {
            assert(w[k] == w[k0]);
        }
    }
    let c = w.map_values(|x: Seq<char>| idx(x) as usize);
    assert forall|k: int| 0 <= k < c.len() implies #[trigger] c[k] < g.len() by {
        assert(0 <= idx(w[k]) < ps.len());
    }
    assert forall|k: int| 0 <= k < c.len() - 1 implies #[trigger] g[c[k] as int].contains(c[k + 1]) by {
        assert(param_edge(ps, w[k], w[k + 1]));
        let i = choose|i: int| 0 <= i < ps.len() && #[trigger] ps[i].0 == w[k] && refs_of(ps[i].1).contains(w[k + 1]);
        assert(0 <= idx(w[k]) < ps.len() && ps[idx(w[k])].0 == w[k]);
        assert(i == idx(w[k])) by {
            if i < idx(w[k]) {
                assert(ps[i].0 != ps[idx(w[k])].0);
            } else if i > idx(w[k]) {
                assert(ps[idx(w[k])].0 != ps[i].0);
            }
        }
        let m = choose|m: int| 0 <= m < refs_of(ps[i].1).len() && refs_of(ps[i].1)[m] == w[k + 1];
        let j = g[i][m] as int;
        assert(ps[j].0 == w[k + 1]);
        assert(0 <= idx(w[k + 1]) < ps.len() && ps[idx(w[k + 1])].0 == w[k + 1]);
        assert(j == idx(w[k + 1])) by {
            if j < idx(w[k + 1]) {
                assert(ps[j].0 != ps[idx(w[k + 1])].0);
            } else if j > idx(w[k + 1]) {
                assert(ps[idx(w[k + 1])].0 != ps[j].0);
            }
        }
        assert(c[k] as int == i);
        assert(g[i][m] == c[k + 1]);
        assert(g[i].contains(c[k + 1]));
    }
    assert(index_cycle(g, c));
}

fn push_ref(out: &mut Vec<String>, b: &Option<Bound>)
    ensures
        string_views(final(out)@) == string_views(old(out)@) + bound_ref(opt_bound_v(*b)),
{
    match b {
        Some(Bound::Reference { parameter, .. }) => {
            let ghost before = out@;
            out.push(parameter.clone());
            assert(string_views(out@) =~= string_views(before) + seq![parameter@]);
        },
        _ => {
            assert(string_views(out@) =~= string_views(out@) + Seq::<Seq<char>>::empty());
        },
    }
}

/// The names parameter `spec` refers to.
fn references(spec: &ParameterSpec) -> (r: Vec<String>)
    ensures
        string_views(r@) == refs_of(spec_v(*spec)),
{
    let mut r: Vec<String> = Vec::new();
    assert(string_views(r@) =~= Seq::<Seq<char>>::empty());
    push_ref(&mut r, &spec.value);
    push_ref(&mut r, &spec.min);
    push_ref(&mut r, &spec.max);
    assert(Seq::<Seq<char>>::empty() + bound_ref(opt_bound_v(spec.value)) =~= bound_ref(opt_bound_v(spec.value)));
    r
}

/// The position of the parameter called `name`.
fn name_index(params: &Vec<(String, ParameterSpec)>, name: &String) -> (r: Option<usize>)
    ensures
        match r {
            Some(i) => i < params.len() && params_v(params@)[i as int].0 == name@,
            None => !names_of(params_v(params@)).contains(name@),
        },
{
    let ghost pv = params_v(params@);
    let mut i: usize = 0;
    while i < params.len()
        invariant
            pv == params_v(params@),
            i <= params.len(),
            forall|l: int| 0 <= l < i ==> #[trigger] pv[l].0 != name@,
        decreases params.len() - i,
    {
        if str_eq(params[i].0.as_str(), name.as_str()) {
            return Some(i);
        }
        i += 1;
    }
    proof {
        if names_of(pv).contains(name@) {
            let l = choose|l: int| 0 <= l < names_of(pv).len() && names_of(pv)[l] == name@;
            assert(pv[l].0 == name@);
        }
    }
    None
}

/// Rejects references to parameters that do not exist, then reference
/// cycles; a rejected cycle is reported by parameter names.
#[verifier::loop_isolation(false)]
pub fn validate_parameter_references(entity_id: &str, params: &Vec<(String, ParameterSpec)>) -> (r: Result<
    (),
    KnowledgeError,
>)
    requires
        names_distinct(params_v(params@)),
    ensures
        match dangling_spec(params_v(params@)) {
            Some((p, t)) => r matches Err(KnowledgeError::DanglingParameterReference { entity_id: x, parameter, target })
                && x@ == entity_id@ && parameter@ == p && target@ == t,
            None => (r is Ok <==> !has_param_cycle(params_v(params@))) && (r matches Err(e) ==> e matches KnowledgeError::ParameterReferenceCycle {
                entity_id: x,
                cycle,
            } && x@ == entity_id@ && is_param_cycle(params_v(params@), string_views(cycle@))
                && string_views(cycle@) == first_param_cycle(params_v(params@))),
        },
{
    let ghost pv = params_v(params@);
    let ghost di = |i: int| first_dangling(pv, i) is Some;
    let mut adj: Vec<Vec<usize>> = Vec::new();
    let mut i: usize = 0;
    while i < params.len()
        invariant
            pv == params_v(params@),
            i <= params.len(),
            adj.len() == i,
            forall|l: int| 0 <= l < i ==> !#[trigger] di(l),
            forall|l: int| 0 <= l < i ==> (#[trigger] adj@[l])@.len() == refs_of(pv[l].1).len(),
            forall|l: int, m: int|
                0 <= l < i && 0 <= m < adj@[l]@.len() ==> #[trigger] adj@[l]@[m] < pv.len() && pv[adj@[l]@[m] as int].0
                    == refs_of(pv[l].1)[m],
        decreases params.len() - i,
    {
        let refs = references(&params[i].1);
        assert(spec_v(params@[i as int].1) == pv[i as int].1);
        let ghost rv = refs_of(pv[i as int].1);
        let ghost dk = |k: int| !names_of(pv).contains(rv[k]);
        let mut row: Vec<usize> = Vec::new();
        let mut k: usize = 0;
        while k < refs.len()
            invariant
                string_views(refs@) == rv,
                k <= refs.len(),
                row.len() == k,
                forall|m: int| 0 <= m < k ==> !#[trigger] dk(m),
                forall|m: int| 0 <= m < k ==> #[trigger] row@[m] < pv.len() && pv[row@[m] as int].0 == rv[m],
            decreases refs.len() - k,
        {
            assert(rv[k as int] == refs@[k as int]@);
            match name_index(params, &refs[k]) {
                Some(j) => {
                    assert(names_of(pv)[j as int] == rv[k as int]);
                    row.push(j);
                },
                None => {
                    proof {
                        assert(dk(k as int));
                        lemma_first_where(rv.len() as int, dk, k as int);
                        assert(di(i as int));
                        lemma_first_where(pv.len() as int, di, i as int);
                    }
                    return Err(
                        KnowledgeError::DanglingParameterReference {
                            entity_id: entity_id.to_owned(),
                            parameter: params[i].0.clone(),
                            target: refs[k].clone(),
                        },
                    );
                },
            }
            k += 1;
        }
        proof {
            lemma_first_where_none(rv.len() as int, dk);
        }
        adj.push(row);
        i += 1;
    }
    proof {
        lemma_first_where_none(pv.len() as int, di);
    }
    let ghost g = adj@.map_values(|a: Vec<usize>| a@);
    assert(adj_matches(pv, g));
    assert(adj_ok(g));
    match find_cycle(&adj) {
        None => {
            proof {
                if has_param_cycle(pv) {
                    let w = choose|w: Seq<Seq<char>>| is_param_cycle(pv, w);
                    lemma_names_to_index(pv, g, w);
                }
            }
            Ok(())
        },
        Some(c) => {
            let mut cycle: Vec<String> = Vec::new();
            let mut t: usize = 0;
            while t < c.len()
                invariant
                    index_cycle(g, c@),
                    t <= c.len(),
                    string_views(cycle@) == c@.take(t as int).map_values(|x: usize| pv[x as int].0),
                decreases c.len() - t,
            {
                let ghost before = cycle@;
                assert(c@[t as int] < g.len());
                let s = params[c[t]].0.clone();
                assert(s@ == pv[c@[t as int] as int].0);
                cycle.push(s);
                assert(string_views(cycle@) =~= string_views(before).push(s@));
                assert(c@.take(t + 1) =~= c@.take(t as int).push(c@[t as int]));
                assert(string_views(cycle@) =~= c@.take(t + 1).map_values(|x: usize| pv[x as int].0));
                t += 1;
            }
            proof {
                assert(c@.take(t as int) =~= c@);
                lemma_index_to_names(pv, g, c@);
                assert(has_param_cycle(pv));
                lemma_ref_graph(pv, g);
                assert(string_views(cycle@) =~= first_param_cycle(pv));
            }
            Err(KnowledgeError::ParameterReferenceCycle { entity_id: entity_id.to_owned(), cycle })
        },
    }
}

/// The parameter names a term mentions, left to right.
pub open spec fn term_params(t: TermV) -> Seq<Seq<char>>
    decreases t,
{
    match t {
        TermV::Param(n) => seq![n],
        TermV::Literal(..) => Seq::empty(),
        TermV::Binary(_, l, r) => term_params(*l) + term_params(*r),
    }
}

/// The parameter names the comparisons `cs` mention, in order.
pub open spec fn comparisons_params(cs: Seq<ComparisonV>) -> Seq<Seq<char>>
    decreases cs.len(),
{
    if cs.len() == 0 {
        Seq::empty()
    } else {
        comparisons_params(cs.drop_last()) + term_params(cs.last().0) + term_params(cs.last().2)
    }
}

/// The first entry of `ps` that is not in `names`.
#[verifier::opaque]
pub open spec fn first_unknown(ps: Seq<Seq<char>>, names: Seq<Seq<char>>) -> Option<Seq<char>> {
    match first_where(ps.len() as int, |k: int| !names.contains(ps[k])) {
        Some(k) => Some(ps[k]),
        None => None,
    }
}

proof fn lemma_first_unknown_concat(a: Seq<Seq<char>>, b: Seq<Seq<char>>, names: Seq<Seq<char>>)
    ensures
        first_unknown(a + b, names) == (if first_unknown(a, names) is Some {
            first_unknown(a, names)
        } else {
            first_unknown(b, names)
        }),
{
    reveal(first_unknown);
    let ab = a + b;
    let pa = |k: int| !names.contains(a[k]);
    let pb = |k: int| !names.contains(b[k]);
    let pab = |k: int| !names.contains(ab[k]);
    match first_where(a.len() as int, pa) {
        Some(k) => {
            lemma_first_where_some(a.len() as int, pa);
            assert forall|j: int| 0 <= j < k implies !#[trigger] pab(j) by {
                assert(ab[j] == a[j]);
                assert(!pa(j));
            }
            assert(ab[k] == a[k]);
            lemma_first_where(ab.len() as int, pab, k);
        },
        None => {
            assert forall|j: int| 0 <= j < a.len() implies !#[trigger] pab(j) by {
                assert(ab[j] == a[j]);
                if pa(j) {
                    assert(exists|i: int| 0 <= i < a.len() && #[trigger] pa(i));
                }
            }
            match first_where(b.len() as int, pb) {
                Some(k) => {
                    lemma_first_where_some(b.len() as int, pb);
                    assert forall|j: int| 0 <= j < a.len() + k implies !#[trigger] pab(j) by {
                        if j >= a.len() {
                            assert(ab[j] == b[j - a.len()]);
                            assert(!pb(j - a.len()));
                        }
                    }
                    assert(ab[a.len() + k] == b[k]);
                    lemma_first_where(ab.len() as int, pab, a.len() + k);
                },
                None => {
                    assert forall|j: int| 0 <= j < ab.len() implies !#[trigger] pab(j) by {
                        if j >= a.len() {
                            assert(ab[j] == b[j - a.len()]);
                            if pb(j - a.len()) {
                                assert(exists|i: int| 0 <= i < b.len() && #[trigger] pb(i));
                            }
                        }
                    }
                    lemma_first_where_none(ab.len() as int, pab);
                },
            }
        },
    }
}

pub open spec fn opt_name(o: Option<String>) -> Option<Seq<char>> {
    match o {
        Some(s) => Some(s@),
        None => None,
    }
}

/// The first parameter name in `t` that `params` does not declare.
fn unknown_in_term(t: &Term, params: &Vec<(String, ParameterSpec)>) -> (r: Option<String>)
    ensures
        opt_name(r) == first_unknown(term_params(term_v(*t)), names_of(params_v(params@))),
    decreases t,
{
    let ghost names = names_of(params_v(params@));
    proof {
        reveal(first_unknown);
    }
    match t {
        Term::Param(n) => {
            let ghost ps = seq![n@];
            let ghost p = |k: int| !names.contains(ps[k]);
            match name_index(params, n) {
                Some(j) => {
                    proof {
                        assert(names[j as int] == n@);
                        lemma_first_where_none(1int, p);
                    }
                    None
                },
                None => {
                    proof {
                        lemma_first_where(1int, p, 0int);
                    }
                    Some(n.clone())
                },
            }
        },
        Term::Literal(_) => {
            proof {
                let ps = Seq::<Seq<char>>::empty();
                lemma_first_where_none(0int, |k: int| !names.contains(ps[k]));
            }
            None
        },
        Term::BinaryOp { left, right, .. } => {
            proof {
                lemma_first_unknown_concat(term_params(term_v(**left)), term_params(term_v(**right)), names);
            }
            match unknown_in_term(left, params) {
                Some(n) => Some(n),
                None => unknown_in_term(right, params),
            }
        },
    }
}

/// The first undeclared parameter of the comparison `left op right`.
fn unknown_in_comparison(left: &Term, right: &Term, params: &Vec<(String, ParameterSpec)>) -> (r: Option<String>)
    ensures
        opt_name(r) == first_unknown(
            term_params(term_v(*left)) + term_params(term_v(*right)),
            names_of(params_v(params@)),
        ),
{
    proof {
        lemma_first_unknown_concat(term_params(term_v(*left)), term_params(term_v(*right)), names_of(params_v(params@)));
    }
    match unknown_in_term(left, params) {
        Some(n) => Some(n),
        None => unknown_in_term(right, params),
    }
}

proof fn lemma_comparisons_params_step(cs: Seq<ComparisonV>, i: int)
    requires
        0 <= i < cs.len(),
    ensures
        comparisons_params(cs.take(i + 1)) == comparisons_params(cs.take(i)) + (term_params(cs[i].0) + term_params(
            cs[i].2,
        )),
{
    assert(cs.take(i + 1).drop_last() =~= cs.take(i));
    assert(cs.take(i + 1).last() == cs[i]);
    assert(comparisons_params(cs.take(i)) + term_params(cs[i].0) + term_params(cs[i].2) =~= comparisons_params(
        cs.take(i),
    ) + (term_params(cs[i].0) + term_params(cs[i].2)));
}

proof fn lemma_comparisons_params_concat(a: Seq<ComparisonV>, b: Seq<ComparisonV>)
    ensures
        comparisons_params(a + b) == comparisons_params(a) + comparisons_params(b),
    decreases b.len(),
{
    if b.len() == 0 {
        assert(a + b =~= a);
        assert(comparisons_params(a) + comparisons_params(b) =~= comparisons_params(a));
    } else {
        lemma_comparisons_params_concat(a, b.drop_last());
        assert((a + b).drop_last() =~= a + b.drop_last());
        assert((a + b).last() == b.last());
        assert(comparisons_params(a) + comparisons_params(b.drop_last()) + term_params(b.last().0) + term_params(
            b.last().2,
        ) =~= comparisons_params(a) + (comparisons_params(b.drop_last()) + term_params(b.last().0) + term_params(
            b.last().2,
        )));
    }
}

/// An undeclared parameter in the first comparisons is the first one of all.
proof fn lemma_prefix_unknown(cs: Seq<ComparisonV>, i: int, names: Seq<Seq<char>>)
    requires
        0 <= i <= cs.len(),
        first_unknown(comparisons_params(cs.take(i)), names) is Some,
    ensures
        first_unknown(comparisons_params(cs), names) == first_unknown(comparisons_params(cs.take(i)), names),
{
    assert(cs.take(i) + cs.skip(i) =~= cs);
    lemma_comparisons_params_concat(cs.take(i), cs.skip(i));
    lemma_first_unknown_concat(comparisons_params(cs.take(i)), comparisons_params(cs.skip(i)), names);
}

/// The first undeclared parameter of a constraint made of comparisons `cs`.
fn unknown_in_constraint(c: &ConstraintExpr, Ghost(cs): Ghost<Seq<ComparisonV>>, params: &Vec<(String, ParameterSpec)>) -> (r: Option<String>)
    requires
        expr_is(*c, cs),
    ensures
        opt_name(r) == first_unknown(comparisons_params(cs), names_of(params_v(params@))),
{
    let ghost names = names_of(params_v(params@));
    match c {
        ConstraintExpr::Comparison { left, right, .. } => {
            proof {
                lemma_comparisons_params_step(cs, 0);
                assert(cs.take(1) =~= cs);
                assert(cs.take(0) =~= Seq::<ComparisonV>::empty());
                assert(comparisons_params(cs.take(0)) =~= Seq::<Seq<char>>::empty());
                assert(comparisons_params(cs) =~= term_params(term_v(*left)) + term_params(term_v(*right)));
            }
            unknown_in_comparison(left, right, params)
        },
        ConstraintExpr::All(parts) => {
            let mut i: usize = 0;
            proof {
                reveal(first_unknown);
                assert(cs.take(0) =~= Seq::<ComparisonV>::empty());
                let ps = comparisons_params(cs.take(0));
                assert(ps =~= Seq::<Seq<char>>::empty());
                lemma_first_where_none(0int, |k: int| !names.contains(ps[k]));
            }
            while i < parts.len()
                invariant
                    cs.len() != 1,
                    parts@.len() == cs.len(),
                    forall|l: int| 0 <= l < parts@.len() ==> crate::knowledge::constraint::comparison_is(#[trigger] parts@[l], cs[l]),
                    names == names_of(params_v(params@)),
                    i <= parts.len(),
                    first_unknown(comparisons_params(cs.take(i as int)), names) is None,
                decreases parts.len() - i,
            {
                let ghost ci = cs[i as int];
                assert(crate::knowledge::constraint::comparison_is(parts@[i as int], ci));
                proof {
                    lemma_comparisons_params_step(cs, i as int);
                    lemma_first_unknown_concat(
                        comparisons_params(cs.take(i as int)),
                        term_params(ci.0) + term_params(ci.2),
                        names,
                    );
                }
                match &parts[i] {
                    ConstraintExpr::Comparison { left, right, .. } => {
                        match unknown_in_comparison(left, right, params) {
                            Some(n) => {
                                proof {
                                    lemma_prefix_unknown(cs, i + 1, names);
                                }
                                return Some(n);
                            },
                            None => {},
                        }
                    },
                    ConstraintExpr::All(_) => {},
                }
                i += 1;
            }
            assert(cs.take(i as int) =~= cs);
            None
        },
    }
}

/// The constraints, parsed in order; the first rejected one decides, with
/// its text and the parser's message.
pub open spec fn constraints_spec(texts: Seq<String>) -> Result<Seq<Seq<ComparisonV>>, (Seq<char>, Seq<char>)> {
    match first_where(texts.len() as int, |i: int| constraint_spec(texts[i]@) is Err) {
        Some(i) => Err((texts[i]@, constraint_spec(texts[i]@)->Err_0)),
        None => Ok(Seq::new(texts.len(), |i: int| constraint_spec(texts[i]@)->Ok_0)),
    }
}

/// Parses every constraint of problem family `entity_id`.
pub fn parse_constraints(entity_id: &str, texts: &Vec<String>) -> (r: Result<Vec<ConstraintExpr>, KnowledgeError>)
    ensures
        match (r, constraints_spec(texts@)) {
            (Ok(v), Ok(css)) => v.len() == css.len() && forall|i: int| 0 <= i < v.len() ==> expr_is(#[trigger] v@[i], css[i]),
            (Err(KnowledgeError::ConstraintParseError { entity_id: x, constraint, message }), Err((t, m))) =>
                x@ == entity_id@ && constraint@ == t && message@ == m,
            _ => false,
        },
{
    let ghost ts = texts@;
    let ghost bad = |i: int| constraint_spec(ts[i]@) is Err;
    let mut out: Vec<ConstraintExpr> = Vec::new();
    let mut i: usize = 0;
    while i < texts.len()
        invariant
            ts == texts@,
            bad == (|i: int| constraint_spec(ts[i]@) is Err),
            i <= texts.len(),
            out.len() == i,
            forall|l: int| 0 <= l < i ==> !#[trigger] bad(l),
            forall|l: int| 0 <= l < i ==> expr_is(#[trigger] out@[l], constraint_spec(ts[l]@)->Ok_0),
        decreases texts.len() - i,
    {
        match parse_constraint(entity_id, texts[i].as_str()) {
            Ok(e) => {
                out.push(e);
            },
            Err(e) => {
                proof {
                    assert(bad(i as int));
                    lemma_first_where(ts.len() as int, bad, i as int);
                }
                return Err(e);
            },
        }
        i += 1;
    }
    proof {
        lemma_first_where_none(ts.len() as int, bad);
    }
    Ok(out)
}

/// The first undeclared parameter, constraint by constraint.
pub open spec fn constraints_unknown(css: Seq<Seq<ComparisonV>>, names: Seq<Seq<char>>) -> Option<Seq<char>> {
    match first_where(css.len() as int, |i: int| first_unknown(comparisons_params(css[i]), names) is Some) {
        Some(i) => first_unknown(comparisons_params(css[i]), names),
        None => None,
    }
}

/// Rejects a constraint that names an undeclared parameter.
fn validate_constraint_parameters(
    entity_id: &str,
    constraints: &Vec<ConstraintExpr>,
    Ghost(css): Ghost<Seq<Seq<ComparisonV>>>,
    params: &Vec<(String, ParameterSpec)>,
) -> (r: Result<(), KnowledgeError>)
    requires
        constraints.len() == css.len(),
        forall|i: int| 0 <= i < constraints.len() ==> expr_is(#[trigger] constraints@[i], css[i]),
    ensures
        match constraints_unknown(css, names_of(params_v(params@))) {
            Some(n) => r matches Err(KnowledgeError::ConstraintUnknownParameter { entity_id: x, parameter })
                && x@ == entity_id@ && parameter@ == n,
            None => r is Ok,
        },
{
    let ghost names = names_of(params_v(params@));
    let ghost bad = |i: int| first_unknown(comparisons_params(css[i]), names) is Some;
    let mut i: usize = 0;
    while i < constraints.len()
        invariant
            constraints.len() == css.len(),
            forall|i: int| 0 <= i < constraints.len() ==> expr_is(#[trigger] constraints@[i], css[i]),
            names == names_of(params_v(params@)),
            bad == (|i: int| first_unknown(comparisons_params(css[i]), names) is Some),
            i <= constraints.len(),
            forall|l: int| 0 <= l < i ==> !#[trigger] bad(l),
        decreases constraints.len() - i,
    {
        assert(expr_is(constraints@[i as int], css[i as int]));
        match unknown_in_constraint(&constraints[i], Ghost(css[i as int]), params) {
            Some(n) => {
                proof {
                    assert(bad(i as int));
                    lemma_first_where(css.len() as int, bad, i as int);
                }
                return Err(KnowledgeError::ConstraintUnknownParameter { entity_id: entity_id.to_owned(), parameter: n });
            },
            None => {},
        }
        i += 1;
    }
    proof {
        lemma_first_where_none(css.len() as int, bad);
    }
    Ok(())
}

pub open spec fn response_type_of(t: Seq<char>) -> Option<ResponseType> {
    if t == "symbolic-expression"@ {
        Some(ResponseType::SymbolicExpression)
    } else if t == "numeric"@ {
        Some(ResponseType::Numeric)
    } else {
        None
    }
}

pub open spec fn response_type_name(t: ResponseType) -> Seq<char> {
    match t {
        ResponseType::SymbolicExpression => "symbolic-expression"@,
        ResponseType::Numeric => "numeric"@,
    }
}

/// A canonical solution: an expression for a symbolic response, a value for
/// a numeric one, and not both.
pub enum SolutionV {
    Symbolic(Seq<char>),
    Numeric(u64),
}

pub open spec fn solution_v(s: CanonicalSolution) -> SolutionV {
    match s {
        CanonicalSolution::Symbolic { expression } => SolutionV::Symbolic(expression@),
        CanonicalSolution::Numeric { value } => SolutionV::Numeric(value.bits),
    }
}

/// A numeric solution is a finite number.
pub open spec fn solution_finite(s: SolutionV) -> bool {
    match s {
        SolutionV::Symbolic(_) => true,
        SolutionV::Numeric(bits) => finite_bits(FloatBits { bits }),
    }
}

pub open spec fn solution_spec(t: ResponseType, raw: RawCanonicalSolution) -> Option<SolutionV> {
    match (t, raw.expression, raw.value) {
        (ResponseType::SymbolicExpression, Some(e), None) => Some(SolutionV::Symbolic(e@)),
        (ResponseType::Numeric, None, Some(v)) => Some(SolutionV::Numeric(v.bits)),
        _ => None,
    }
}

fn convert_canonical_solution(entity_id: &str, response_type: ResponseType, raw: RawCanonicalSolution) -> (r: Result<
    CanonicalSolution,
    KnowledgeError,
>)
    ensures
        match solution_spec(response_type, raw) {
            Some(v) => if solution_finite(v) {
                r matches Ok(s) && solution_v(s) == v
            } else {
                r matches Err(KnowledgeError::NonFiniteCanonicalSolution { entity_id: x }) && x@ == entity_id@
            },
            None => r matches Err(KnowledgeError::ResponseTypeSolutionMismatch { entity_id: x, response_type: n })
                && x@ == entity_id@ && n@ == response_type_name(response_type),
        },
{
    proof {
        reveal_strlit("symbolic-expression");
        reveal_strlit("numeric");
    }
    match (response_type, raw.expression, raw.value) {
        (ResponseType::SymbolicExpression, Some(expression), None) => Ok(CanonicalSolution::Symbolic { expression }),
        (ResponseType::Numeric, None, Some(value)) => {
            if is_finite(value) {
                Ok(CanonicalSolution::Numeric { value })
            } else {
                Err(KnowledgeError::NonFiniteCanonicalSolution { entity_id: entity_id.to_owned() })
            }
        },
        _ => Err(
            KnowledgeError::ResponseTypeSolutionMismatch {
                entity_id: entity_id.to_owned(),
                response_type: match response_type {
                    ResponseType::SymbolicExpression => "symbolic-expression",
                    ResponseType::Numeric => "numeric",
                },
            },
        ),
    }
}

pub open spec fn level_repeated(levels: Seq<u32>, j: int) -> bool {
    exists|i: int| 0 <= i < j && levels[i] == levels[j]
}

/// The `j`-th hint level is rejected: levels start at 1, appear once and
/// ascend in body order (gaps are allowed).
pub open spec fn hint_bad(levels: Seq<u32>, j: int) -> bool {
    levels[j] == 0 || level_repeated(levels, j) || (j > 0 && levels[j] < levels[j - 1])
}

pub open spec fn hint_bad_at(levels: Seq<u32>) -> spec_fn(int) -> bool {
    |j: int| hint_bad(levels, j)
}

/// The error for the rejected `j`-th hint level.
pub open spec fn hint_failure_is(e: KnowledgeError, entity_id: Seq<char>, levels: Seq<u32>, j: int) -> bool {
    if levels[j] == 0 {
        e matches KnowledgeError::InvalidHintLevel { entity_id: x, level } && x@ == entity_id && level == 0
    } else if level_repeated(levels, j) {
        e matches KnowledgeError::DuplicateHintLevel { entity_id: x, level } && x@ == entity_id && level == levels[j]
    } else {
        e matches KnowledgeError::OutOfOrderHintLevel { entity_id: x, previous_level, level } && x@ == entity_id
            && previous_level == levels[j - 1] && level == levels[j]
    }
}

pub open spec fn hint_v(h: Hint) -> (u32, Seq<char>) {
    (h.level, h.text@)
}

/// Pairs hint levels with hint texts, in order.
#[verifier::loop_isolation(false)]
fn pair_hints(entity_id: &str, levels: &Vec<RawHint>, texts: Vec<String>) -> (r: Result<Vec<Hint>, KnowledgeError>)
    requires
        levels.len() == texts.len(),
    ensures
        ({
            let ls = levels@.map_values(|h: RawHint| h.level);
            match first_where(ls.len() as int, hint_bad_at(ls)) {
                Some(j) => r matches Err(e) && hint_failure_is(e, entity_id@, ls, j),
                None => r matches Ok(hs) && hs@.map_values(|h: Hint| hint_v(h)) == Seq::new(
                    ls.len(),
                    |i: int| (ls[i], texts@[i]@),
                ),
            }
        }),
{
    let ghost ls = levels@.map_values(|h: RawHint| h.level);
    let ghost ts = texts@;
    let ghost bad = hint_bad_at(ls);
    let mut rest = texts;
    let mut out: Vec<Hint> = Vec::new();
    let mut j: usize = 0;
    while j < levels.len()
        invariant
            ls == levels@.map_values(|h: RawHint| h.level),
            bad == hint_bad_at(ls),
            levels.len() == ts.len(),
            j <= levels.len(),
            rest@ == ts.skip(j as int),
            out@.map_values(|h: Hint| hint_v(h)) == Seq::new(j as nat, |i: int| (ls[i], ts[i]@)),
            forall|l: int| 0 <= l < j ==> !#[trigger] bad(l),
        decreases levels.len() - j,
    {
        let level = levels[j].level;
        assert(ls[j as int] == level);
        if level == 0 {
            proof {
                assert(bad(j as int));
                lemma_first_where(ls.len() as int, bad, j as int);
            }
            return Err(KnowledgeError::InvalidHintLevel { entity_id: entity_id.to_owned(), level });
        }
        let mut i: usize = 0;
        while i < j
            invariant
                ls == levels@.map_values(|h: RawHint| h.level),
                j < levels.len(),
                level == ls[j as int],
                i <= j,
                forall|l: int| 0 <= l < i ==> ls[l] != level,
            decreases j - i,
        {
            assert(ls[i as int] == levels@[i as int].level);
            if levels[i].level == level {
                proof {
                    assert(bad(j as int));
                    lemma_first_where(ls.len() as int, bad, j as int);
                }
                return Err(KnowledgeError::DuplicateHintLevel { entity_id: entity_id.to_owned(), level });
            }
            i += 1;
        }
        assert(!level_repeated(ls, j as int));
        if j > 0 && level < levels[j - 1].level {
            assert(ls[j - 1] == levels@[j - 1].level);
            proof {
                assert(bad(j as int));
                lemma_first_where(ls.len() as int, bad, j as int);
            }
            return Err(
                KnowledgeError::OutOfOrderHintLevel {
                    entity_id: entity_id.to_owned(),
                    previous_level: levels[j - 1].level,
                    level,
                },
            );
        }
        assert(j > 0 ==> ls[j - 1] == levels@[j - 1].level);
        assert(!bad(j as int));
        let text = rest.remove(0);
        assert(text == ts[j as int]);
        assert(rest@ =~= ts.skip(j + 1));
        let ghost before = out@;
        let h = Hint { level, text };
        out.push(h);
        assert(out@.map_values(|h: Hint| hint_v(h)) =~= before.map_values(|h: Hint| hint_v(h)).push(hint_v(h)));
        assert(out@.map_values(|h: Hint| hint_v(h)) =~= Seq::new((j + 1) as nat, |i: int| (ls[i], ts[i]@)));
        j += 1;
    }
    proof {
        lemma_first_where_none(ls.len() as int, bad);
    }
    Ok(out)
}

pub open spec fn status_of(t: Seq<char>) -> Option<ProblemFamilyStatus> {
    if t == "verified"@ {
        Some(ProblemFamilyStatus::Verified)
    } else if t == "needs-review"@ {
        Some(ProblemFamilyStatus::NeedsReview)
    } else {
        None
    }
}

pub open spec fn invalid_id(r: Result<ProblemFamily, KnowledgeError>, v: Seq<char>) -> bool {
    r matches Err(KnowledgeError::InvalidIdentifier { value }) && value@ == v
}

/// The names of `ps` are in increasing order, as the keys of a map are.
pub open spec fn names_sorted(ps: Seq<(Seq<char>, ParamV)>) -> bool {
    forall|i: int, j: int| 0 <= i < j < ps.len() ==> text_lt(#[trigger] ps[i].0, #[trigger] ps[j].0)
}

pub open spec fn raw_names_sorted(ps: Seq<(String, RawParameterSpec)>) -> bool {
    forall|i: int, j: int| 0 <= i < j < ps.len() ==> text_lt(#[trigger] ps[i].0@, #[trigger] ps[j].0@)
}

pub open spec fn raw_names_distinct(ps: Seq<(String, RawParameterSpec)>) -> bool {
    forall|i: int, j: int| 0 <= i < j < ps.len() ==> #[trigger] ps[i].0@ != #[trigger] ps[j].0@
}

/// What building a problem family gives, stage by stage: identifiers,
/// difficulty, generator; parameters and their references; constraints.
pub open spec fn family_outcome(raw: RawProblemFamilyFrontmatter, body: Seq<char>, r: Result<ProblemFamily, KnowledgeError>) -> bool {
    let id = raw.id@;
    let objs = raw.objective_ids@.map_values(|s: String| s@);
    if !valid_identifier(id) {
        invalid_id(r, id)
    } else if !valid_identifier(raw.concept_id@) {
        invalid_id(r, raw.concept_id@)
    } else if first_invalid(objs) is Some {
        invalid_id(r, objs[first_invalid(objs)->0])
    } else if raw.difficulty.min > raw.difficulty.max {
        r matches Err(KnowledgeError::InvalidDifficultyRange { entity_id, min, max }) && entity_id@ == id && min
            == raw.difficulty.min && max == raw.difficulty.max
    } else if !valid_identifier(raw.generator.id@) {
        invalid_id(r, raw.generator.id@)
    } else {
        match parameters_spec(raw.parameters@) {
            Err(f) => r matches Err(e) && param_failure_is(e, id, f),
            Ok(pv) => match dangling_spec(pv) {
                Some((p, t)) => r matches Err(KnowledgeError::DanglingParameterReference { entity_id, parameter, target })
                    && entity_id@ == id && parameter@ == p && target@ == t,
                None => if has_param_cycle(pv) {
                    r matches Err(KnowledgeError::ParameterReferenceCycle { entity_id, cycle }) && entity_id@ == id
                        && is_param_cycle(pv, string_views(cycle@)) && string_views(cycle@) == first_param_cycle(pv)
                } else {
                    match constraints_spec(raw.constraints@) {
                        Err((t, m)) => r matches Err(KnowledgeError::ConstraintParseError { entity_id, constraint, message })
                            && entity_id@ == id && constraint@ == t && message@ == m,
                        Ok(css) => match constraints_unknown(css, names_of(pv)) {
                            Some(n) => r matches Err(KnowledgeError::ConstraintUnknownParameter { entity_id, parameter })
                                && entity_id@ == id && parameter@ == n,
                            None => family_outcome_rest(raw, body, pv, css, r),
                        },
                    }
                },
            },
        }
    }
}

/// The later stages: response type and canonical solution, status,
/// provenance, body, hints; then the family itself.
pub open spec fn family_outcome_rest(
    raw: RawProblemFamilyFrontmatter,
    body: Seq<char>,
    pv: Seq<(Seq<char>, ParamV)>,
    css: Seq<Seq<ComparisonV>>,
    r: Result<ProblemFamily, KnowledgeError>,
) -> bool {
    let id = raw.id@;
    match response_type_of(raw.response_type@) {
        None => r matches Err(KnowledgeError::UnknownResponseType { entity_id, value }) && entity_id@ == id && value@
            == raw.response_type@,
        Some(rt) => match solution_spec(rt, raw.canonical_solution) {
            None => r matches Err(KnowledgeError::ResponseTypeSolutionMismatch { entity_id, response_type })
                && entity_id@ == id && response_type@ == response_type_name(rt),
            Some(sol) => if !solution_finite(sol) {
                r matches Err(KnowledgeError::NonFiniteCanonicalSolution { entity_id }) && entity_id@ == id
            } else { match status_of(raw.status@) {
                None => r matches Err(KnowledgeError::UnknownProblemFamilyStatus { entity_id, value }) && entity_id@
                    == id && value@ == raw.status@,
                Some(st) => match provenance_spec(raw.provenance_refs@) {
                    Err(f) => r matches Err(e) && provenance_error_is(e, id, f),
                    Ok(refs) => match body_spec(body, problem_family_headings(), false) {
                        Err(f) => r matches Err(e) && problem_family_error(e, id, f),
                        Ok((prompt, solution, texts)) => {
                            let ls = raw.hints@.map_values(|h: RawHint| h.level);
                            if ls.len() != texts.len() {
                                r matches Err(KnowledgeError::ProblemFamilyHintCountMismatch {
                                    entity_id,
                                    frontmatter_count,
                                    body_count,
                                }) && entity_id@ == id && frontmatter_count == ls.len() && body_count == texts.len()
                            } else {
                                match first_where(ls.len() as int, hint_bad_at(ls)) {
                                    Some(j) => r matches Err(e) && hint_failure_is(e, id, ls, j),
                                    None => r matches Ok(p) && family_is(
                                        p,
                                        raw,
                                        pv,
                                        css,
                                        rt,
                                        sol,
                                        st,
                                        refs,
                                        prompt,
                                        solution,
                                        Seq::new(ls.len(), |i: int| (ls[i], texts[i])),
                                    ),
                                }
                            }
                        },
                    },
                },
            } },
        },
    }
}

/// `p` is the family built from `raw` and the validated parts.
pub open spec fn family_is(
    p: ProblemFamily,
    raw: RawProblemFamilyFrontmatter,
    pv: Seq<(Seq<char>, ParamV)>,
    css: Seq<Seq<ComparisonV>>,
    rt: ResponseType,
    sol: SolutionV,
    st: ProblemFamilyStatus,
    refs: Seq<RefV>,
    prompt: Seq<char>,
    solution: Seq<char>,
    hints: Seq<(u32, Seq<char>)>,
) -> bool {
    &&& p.id@ == raw.id@
    &&& p.concept_id@ == raw.concept_id@
    &&& p.objective_ids@.map_values(|x: ObjectiveId| x@) == raw.objective_ids@.map_values(|s: String| s@)
    &&& p.difficulty == DifficultyRange { min: raw.difficulty.min, max: raw.difficulty.max }
    &&& p.generator.id@ == raw.generator.id@
    &&& p.generator.version == raw.generator.version
    &&& params_v(p.parameters@) == pv
    &&& p.constraints.len() == css.len()
    &&& (forall|i: int| 0 <= i < css.len() ==> expr_is(#[trigger] p.constraints@[i], css[i]))
    &&& p.prompt@ == prompt
    &&& p.solution_structure@ == solution
    &&& p.response_type == rt
    &&& solution_v(p.canonical_solution) == sol
    &&& p.hints@.map_values(|h: Hint| hint_v(h)) == hints
    &&& p.provenance_refs@.map_values(|x: ProvenanceRef| ref_v(x)) == refs
    &&& p.status == st
}

fn response_type_from(t: &str) -> (r: Option<ResponseType>)
    ensures
        r == response_type_of(t@),
{
    proof {
        reveal_strlit("symbolic-expression");
        reveal_strlit("numeric");
    }
    if str_eq(t, "symbolic-expression") {
        Some(ResponseType::SymbolicExpression)
    } else if str_eq(t, "numeric") {
        Some(ResponseType::Numeric)
    } else {
        None
    }
}

fn status_from(t: &str) -> (r: Option<ProblemFamilyStatus>)
    ensures
        r == status_of(t@),
{
    proof {
        reveal_strlit("verified");
        reveal_strlit("needs-review");
    }
    if str_eq(t, "verified") {
        Some(ProblemFamilyStatus::Verified)
    } else if str_eq(t, "needs-review") {
        Some(ProblemFamilyStatus::NeedsReview)
    } else {
        None
    }
}

/// The stages of `family_outcome_rest`, given the checked earlier parts.
#[verifier::rlimit(60)]
fn finish_family(
    raw: RawProblemFamilyFrontmatter,
    Ghost(raw0): Ghost<RawProblemFamilyFrontmatter>,
    body: &str,
    id: ProblemFamilyId,
    concept_id: ConceptId,
    objective_ids: Vec<ObjectiveId>,
    parameters: Vec<(String, ParameterSpec)>,
    constraints: Vec<ConstraintExpr>,
    Ghost(css): Ghost<Seq<Seq<ComparisonV>>>,
) -> (r: Result<ProblemFamily, KnowledgeError>)
    requires
        raw.id == raw0.id,
        raw.concept_id == raw0.concept_id,
        raw.objective_ids == raw0.objective_ids,
        raw.difficulty == raw0.difficulty,
        raw.generator == raw0.generator,
        raw.response_type == raw0.response_type,
        raw.canonical_solution == raw0.canonical_solution,
        raw.hints == raw0.hints,
        raw.provenance_refs == raw0.provenance_refs,
        raw.status == raw0.status,
        id@ == raw.id@,
        concept_id@ == raw.concept_id@,
        objective_ids@.map_values(|x: ObjectiveId| x@) == raw.objective_ids@.map_values(|s: String| s@),
        valid_identifier(raw.generator.id@),
        constraints.len() == css.len(),
        forall|i: int| 0 <= i < css.len() ==> expr_is(#[trigger] constraints@[i], css[i]),
    ensures
        family_outcome_rest(raw0, body@, params_v(parameters@), css, r),
{
    let entity_id = id.as_str();
    let response_type = match response_type_from(raw.response_type.as_str()) {
        Some(t) => t,
        None => {
            return Err(KnowledgeError::UnknownResponseType { entity_id: entity_id.to_owned(), value: raw.response_type });
        },
    };
    let canonical_solution = convert_canonical_solution(entity_id, response_type, raw.canonical_solution)?;
    let status = match status_from(raw.status.as_str()) {
        Some(s) => s,
        None => {
            return Err(KnowledgeError::UnknownProblemFamilyStatus { entity_id: entity_id.to_owned(), value: raw.status });
        },
    };
    let provenance_refs = match convert_provenance_refs(entity_id, raw.provenance_refs) {
        Ok(p) => p,
        Err(e) => {
            return Err(e);
        },
    };
    let parsed = parse_problem_family_body(entity_id, body)?;
    if raw.hints.len() != parsed.hint_texts.len() {
        assert(raw0.hints@.map_values(|h: RawHint| h.level).len() == raw.hints.len());
        return Err(
            KnowledgeError::ProblemFamilyHintCountMismatch {
                entity_id: entity_id.to_owned(),
                frontmatter_count: raw.hints.len(),
                body_count: parsed.hint_texts.len(),
            },
        );
    }
    let ghost texts = parsed.hint_texts@;
    let hints = pair_hints(entity_id, &raw.hints, parsed.hint_texts)?;
    let generator = GeneratorRef { id: GeneratorId::new(raw.generator.id.as_str())?, version: raw.generator.version };
    let family = ProblemFamily {
        id,
        concept_id,
        objective_ids,
        difficulty: DifficultyRange { min: raw.difficulty.min, max: raw.difficulty.max },
        generator,
        parameters,
        constraints,
        prompt: parsed.prompt,
        solution_structure: parsed.solution_structure,
        response_type,
        canonical_solution,
        hints,
        provenance_refs,
        status,
    };
    proof {
        let ls = raw0.hints@.map_values(|h: RawHint| h.level);
        assert(Seq::new(ls.len(), |i: int| (ls[i], texts[i]@)) =~= Seq::new(
            ls.len(),
            |i: int| (ls[i], texts.map_values(|s: String| s@)[i]),
        ));
    }
    Ok(family)
}

/// Builds problem family from its frontmatter and its Markdown body; the
/// parameters' names must be distinct, as in the map the loader reads.
#[verifier::rlimit(60)]
pub fn problem_family_from_parts(raw: RawProblemFamilyFrontmatter, body: &str) -> (r: Result<ProblemFamily, KnowledgeError>)
    requires
        raw_names_distinct(raw.parameters@),
        raw_names_sorted(raw.parameters@),
    ensures
        family_outcome(raw, body@, r),
        r matches Ok(f) ==> names_distinct(params_v(f.parameters@)) && names_sorted(params_v(f.parameters@)),
{
    let ghost raw0 = raw;
    let id = ProblemFamilyId::new(raw.id.as_str())?;
    let concept_id = ConceptId::new(raw.concept_id.as_str())?;
    let objective_ids = match objective_ids(&raw.objective_ids) {
        Ok(v) => v,
        Err(e) => {
            proof {
                let objs = raw.objective_ids@.map_values(|s: String| s@);
                assert(first_invalid(objs) is Some);
                lemma_first_where_some(objs.len() as int, |i: int| !valid_identifier(objs[i]));
                let i = first_invalid(objs)->0;
                assert(objs[i] == raw.objective_ids@[i]@);
            }
            return Err(e);
        },
    };
    let entity_id = id.as_str();
    if raw.difficulty.min > raw.difficulty.max {
        return Err(
            KnowledgeError::InvalidDifficultyRange {
                entity_id: entity_id.to_owned(),
                min: raw.difficulty.min,
                max: raw.difficulty.max,
            },
        );
    }
    if !crate::modules::identifier::validate_identifier(raw.generator.id.as_str()).is_ok() {
        return Err(KnowledgeError::InvalidIdentifier { value: raw.generator.id.clone() });
    }
    let mut raw = raw;
    let mut raw_parameters: Vec<(String, RawParameterSpec)> = Vec::new();
    std::mem::swap(&mut raw_parameters, &mut raw.parameters);
    let parameters = convert_parameters(entity_id, raw_parameters)?;
    proof {
        let pv = params_v(parameters@);
        assert forall|i: int, j: int| 0 <= i < j < pv.len() implies #[trigger] pv[i].0 != #[trigger] pv[j].0 by {
            assert(pv[i].0 == raw0.parameters@[i].0@);
            assert(pv[j].0 == raw0.parameters@[j].0@);
        }
    }
    validate_parameter_references(entity_id, &parameters)?;
    let constraints = parse_constraints(entity_id, &raw.constraints)?;
    let ghost css = constraints_spec(raw0.constraints@)->Ok_0;
    validate_constraint_parameters(entity_id, &constraints, Ghost(css), &parameters)?;
    let id_copy = id.clone();
    let ghost pv = params_v(parameters@);
    proof {
        assert forall|i: int, j: int| 0 <= i < j < pv.len() implies text_lt(#[trigger] pv[i].0, #[trigger] pv[j].0) by {
            assert(pv[i].0 == raw0.parameters@[i].0@);
            assert(pv[j].0 == raw0.parameters@[j].0@);
        }
    }
    let r = finish_family(raw, Ghost(raw0), body, id_copy, concept_id, objective_ids, parameters, constraints, Ghost(css));
    proof {
        if r is Ok {
            assert(params_v(r->Ok_0.parameters@) == pv);
        }
    }
    r
}

/// What every accepted family satisfies on its own.
pub open spec fn family_well_formed(f: ProblemFamily) -> bool {
    let pv = params_v(f.parameters@);
    &&& f.difficulty.min <= f.difficulty.max
    &&& forall|i: int| 0 <= i < pv.len() && (#[trigger] pv[i]).1.1 is Some ==> pv[i].1.2 is None && pv[i].1.3 is None
    &&& dangling_spec(pv) is None
    &&& !has_param_cycle(pv)
    &&& (f.response_type == ResponseType::SymbolicExpression <==> f.canonical_solution is Symbolic)
    &&& forall|j: int| 0 <= j < f.hints.len() ==> #[trigger] f.hints@[j].level > 0
    &&& forall|a: int, b: int| 0 <= a < b < f.hints.len() ==> #[trigger] f.hints@[a].level != #[trigger] f.hints@[b].level
    &&& forall|j: int| 0 < j < f.hints.len() ==> f.hints@[j - 1].level < #[trigger] f.hints@[j].level
    &&& f.provenance_refs.len() > 0
}

proof fn lemma_rest_well_formed(
    raw: RawProblemFamilyFrontmatter,
    body: Seq<char>,
    pv: Seq<(Seq<char>, ParamV)>,
    css: Seq<Seq<ComparisonV>>,
    r: Result<ProblemFamily, KnowledgeError>,
)
    requires
        family_outcome_rest(raw, body, pv, css, r),
        r is Ok,
    ensures
        params_v(r->Ok_0.parameters@) == pv,
        r->Ok_0.difficulty.min == raw.difficulty.min,
        r->Ok_0.difficulty.max == raw.difficulty.max,
        r->Ok_0.constraints.len() == css.len(),
        forall|i: int| 0 <= i < css.len() ==> expr_is(#[trigger] r->Ok_0.constraints@[i], css[i]),
        (r->Ok_0.response_type == ResponseType::SymbolicExpression <==> r->Ok_0.canonical_solution is Symbolic),
        forall|j: int| 0 <= j < r->Ok_0.hints.len() ==> #[trigger] r->Ok_0.hints@[j].level > 0,
        forall|a: int, b: int| 0 <= a < b < r->Ok_0.hints.len() ==> #[trigger] r->Ok_0.hints@[a].level
            != #[trigger] r->Ok_0.hints@[b].level,
        forall|j: int| 0 < j < r->Ok_0.hints.len() ==> r->Ok_0.hints@[j - 1].level < #[trigger] r->Ok_0.hints@[j].level,
        r->Ok_0.provenance_refs.len() > 0,
{
    let p = r->Ok_0;
    let rt = response_type_of(raw.response_type@)->0;
    let sol = solution_spec(rt, raw.canonical_solution)->0;
    assert(p.response_type == rt);
    assert(solution_v(p.canonical_solution) == sol);
    let refs = provenance_spec(raw.provenance_refs@)->Ok_0;
    assert(p.provenance_refs@.map_values(|x: ProvenanceRef| ref_v(x)) == refs);
    assert(refs.len() == raw.provenance_refs@.len());
    let ls = raw.hints@.map_values(|h: RawHint| h.level);
    let texts = body_spec(body, problem_family_headings(), false)->Ok_0.2;
    assert(first_where(ls.len() as int, hint_bad_at(ls)) is None);
    let hs = p.hints@.map_values(|h: Hint| hint_v(h));
    assert(hs == Seq::new(ls.len(), |i: int| (ls[i], texts[i])));
    assert forall|j: int| 0 <= j < p.hints.len() implies !hint_bad(ls, j) && #[trigger] p.hints@[j].level == ls[j] by {
        assert(!hint_bad_at(ls)(j));
        assert(hs[j] == hint_v(p.hints@[j]));
    }
    assert forall|a: int, b: int| 0 <= a < b < p.hints.len() implies #[trigger] p.hints@[a].level != #[trigger] p.hints@[b].level by {
        assert(!hint_bad_at(ls)(b));
        assert(hs[a] == hint_v(p.hints@[a]) && hs[b] == hint_v(p.hints@[b]));
        assert(p.hints@[a].level == ls[a] && p.hints@[b].level == ls[b]);
        if ls[a] == ls[b] {
            assert(level_repeated(ls, b));
        }
    }
    assert forall|j: int| 0 < j < p.hints.len() implies p.hints@[j - 1].level < #[trigger] p.hints@[j].level by {
        assert(!hint_bad_at(ls)(j));
        assert(hs[j - 1] == hint_v(p.hints@[j - 1]) && hs[j] == hint_v(p.hints@[j]));
        assert(p.hints@[j - 1].level == ls[j - 1] && p.hints@[j].level == ls[j]);
        if ls[j - 1] == ls[j] {
            assert(level_repeated(ls, j));
        }
    }
}

/// Law: every family that parsing accepts is well formed: its difficulty
/// range is ordered, no parameter has both a fixed value and bounds, every
/// reference names a parameter and none is circular, every parameter that a
/// constraint names exists, the solution matches the response type, hint
/// levels are positive, distinct and ascending, and it cites a source.
pub proof fn lemma_parsed_family_is_well_formed(
    raw: RawProblemFamilyFrontmatter,
    body: Seq<char>,
    r: Result<ProblemFamily, KnowledgeError>,
)
    requires
        family_outcome(raw, body, r),
        r is Ok,
    ensures
        family_well_formed(r->Ok_0),
        ({
            let css = constraints_spec(raw.constraints@)->Ok_0;
            &&& r->Ok_0.constraints.len() == css.len()
            &&& forall|i: int| 0 <= i < css.len() ==> expr_is(#[trigger] r->Ok_0.constraints@[i], css[i])
            &&& constraints_unknown(css, names_of(params_v(r->Ok_0.parameters@))) is None
        }),
{
    let pv = parameters_spec(raw.parameters@)->Ok_0;
    let css = constraints_spec(raw.constraints@)->Ok_0;
    lemma_rest_well_formed(raw, body, pv, css, r);
    let raws = raw.parameters@;
    let bad = |k: int| param_spec(raws[k].0@, raws[k].1) is Err;
    assert(first_where(raws.len() as int, bad) is None);
    assert forall|i: int| 0 <= i < pv.len() && (#[trigger] pv[i]).1.1 is Some implies pv[i].1.2 is None && pv[i].1.3 is None by {
        assert(!bad(i));
        assert(pv[i] == (raws[i].0@, param_spec(raws[i].0@, raws[i].1)->Ok_0));
    }
}

} // verus!
