//! Cross-entity references of a knowledge package: objectives, examples and
//! problem families name existing concepts, examples and problem families name
//! existing objectives of their own concept, and every provenance reference
//! names a declared source.
use vstd::prelude::*;

use crate::text::{
    first_where, last_where, lemma_first_where, lemma_first_where_none, lemma_last_where, lemma_last_where_none,
    lemma_last_where_some,
};

use super::error::KnowledgeError;
use super::identifier::{ConceptId, ObjectiveId};
use super::types::{Concept, Example, Objective, ProblemFamily, ProvenanceRef, Source};

verus! {

/// The entities of a package, each kind in file-name order.
pub struct DiscoveredEntities {
    pub concepts: Vec<Concept>,
    pub objectives: Vec<Objective>,
    pub examples: Vec<Example>,
    pub problem_families: Vec<ProblemFamily>,
}

pub open spec fn has_concept(cs: Seq<Concept>, id: Seq<char>) -> bool {
    exists|i: int| 0 <= i < cs.len() && #[trigger] cs[i].id@ == id
}

/// The objective an id stands for: the last one with that id.
pub open spec fn objective_for(os: Seq<Objective>, id: Seq<char>) -> Option<int> {
    last_where(os.len() as int, with_id(os, id))
}

pub open spec fn with_id(os: Seq<Objective>, id: Seq<char>) -> spec_fn(int) -> bool {
    |i: int| os[i].id@ == id
}

/// Why references are rejected.
pub enum ReferenceFailure {
    /// An entity's `concept_id` names no concept.
    UnresolvedConcept(Seq<char>, Seq<char>),
    /// An example's objective id names no objective.
    UnresolvedObjective(Seq<char>, Seq<char>),
    /// An example's objective belongs to another concept.
    CrossConcept(Seq<char>, Seq<char>),
    /// A problem family's objective belongs to another concept.
    FamilyCrossConcept(Seq<char>, Seq<char>),
    /// A problem family names no objective at all.
    FamilyWithoutObjectives(Seq<char>),
    /// A provenance reference names no declared source.
    UnresolvedSource(Seq<char>, Seq<char>),
}

/// The `k`-th of `ids` names no objective, or one of another concept than `concept`.
pub open spec fn objective_bad_at(ids: Seq<ObjectiveId>, concept: Seq<char>, os: Seq<Objective>) -> spec_fn(int) -> bool {
    |k: int| match objective_for(os, ids[k]@) {
        None => true,
        Some(o) => os[o].concept_id@ != concept,
    }
}

/// The first broken link of entity `id` to its concept and objectives; a
/// foreign objective is reported as a problem family's when `family` holds.
pub open spec fn links_failure(
    id: Seq<char>,
    concept: Seq<char>,
    ids: Seq<ObjectiveId>,
    cs: Seq<Concept>,
    os: Seq<Objective>,
    family: bool,
) -> Option<ReferenceFailure> {
    if !has_concept(cs, concept) {
        Some(ReferenceFailure::UnresolvedConcept(id, concept))
    } else {
        match first_where(ids.len() as int, objective_bad_at(ids, concept, os)) {
            None => None,
            Some(k) => {
                let target = ids[k]@;
                if objective_for(os, target) is None {
                    Some(ReferenceFailure::UnresolvedObjective(id, target))
                } else if family {
                    Some(ReferenceFailure::FamilyCrossConcept(id, target))
                } else {
                    Some(ReferenceFailure::CrossConcept(id, target))
                }
            },
        }
    }
}

pub open spec fn example_failure(ex: Example, cs: Seq<Concept>, os: Seq<Objective>) -> Option<ReferenceFailure> {
    links_failure(ex.id@, ex.concept_id@, ex.objective_ids@, cs, os, false)
}

/// A problem family must name at least one objective; then its links are
/// checked as an example's are.
pub open spec fn family_failure(f: ProblemFamily, cs: Seq<Concept>, os: Seq<Objective>) -> Option<ReferenceFailure> {
    if f.objective_ids.len() == 0 {
        Some(ReferenceFailure::FamilyWithoutObjectives(f.id@))
    } else {
        links_failure(f.id@, f.concept_id@, f.objective_ids@, cs, os, true)
    }
}

pub open spec fn has_source(sources: Seq<Source>, id: Seq<char>) -> bool {
    exists|i: int| 0 <= i < sources.len() && #[trigger] sources[i].id@ == id
}

/// The first provenance reference, entity by entity, that names no source:
/// (the entity, the missing source).
pub open spec fn source_failure(entities: Seq<(Seq<char>, Seq<ProvenanceRef>)>, sources: Seq<Source>) -> Option<(Seq<char>, Seq<char>)> {
    match first_where(entities.len() as int, |i: int| first_missing_source(entities[i].1, sources) is Some) {
        None => None,
        Some(i) => Some((entities[i].0, first_missing_source(entities[i].1, sources)->0)),
    }
}

/// The first reference in `refs` to an undeclared source.
pub open spec fn first_missing_source(refs: Seq<ProvenanceRef>, sources: Seq<Source>) -> Option<Seq<char>> {
    match first_where(refs.len() as int, |k: int| !has_source(sources, refs[k].source_id@)) {
        Some(k) => Some(refs[k].source_id@),
        None => None,
    }
}

pub open spec fn concept_entries(cs: Seq<Concept>) -> Seq<(Seq<char>, Seq<ProvenanceRef>)> {
    cs.map_values(|c: Concept| (c.id@, c.provenance_refs@))
}

pub open spec fn objective_entries(os: Seq<Objective>) -> Seq<(Seq<char>, Seq<ProvenanceRef>)> {
    os.map_values(|o: Objective| (o.id@, o.provenance_refs@))
}

pub open spec fn example_entries(xs: Seq<Example>) -> Seq<(Seq<char>, Seq<ProvenanceRef>)> {
    xs.map_values(|x: Example| (x.id@, x.provenance_refs@))
}

pub open spec fn family_entries(fs: Seq<ProblemFamily>) -> Seq<(Seq<char>, Seq<ProvenanceRef>)> {
    fs.map_values(|f: ProblemFamily| (f.id@, f.provenance_refs@))
}

/// What `validate_references` decides: objectives' concepts, then the
/// concepts and objectives of examples and of problem families (each of which
/// must name at least one objective), then the
/// provenance sources of concepts, objectives, examples and problem families,
/// each in order; the first failure decides.
pub open spec fn references_spec(
    cs: Seq<Concept>,
    os: Seq<Objective>,
    xs: Seq<Example>,
    fs: Seq<ProblemFamily>,
    sources: Seq<Source>,
) -> Option<ReferenceFailure> {
    match first_where(os.len() as int, |i: int| !has_concept(cs, os[i].concept_id@)) {
        Some(i) => Some(ReferenceFailure::UnresolvedConcept(os[i].id@, os[i].concept_id@)),
        None => match first_where(xs.len() as int, |i: int| example_failure(xs[i], cs, os) is Some) {
            Some(i) => example_failure(xs[i], cs, os),
            None => match first_where(fs.len() as int, |i: int| family_failure(fs[i], cs, os) is Some) {
                Some(i) => family_failure(fs[i], cs, os),
                None => sources_spec(cs, os, xs, fs, sources),
            },
        },
    }
}

/// The provenance stage of `references_spec`.
pub open spec fn sources_spec(
    cs: Seq<Concept>,
    os: Seq<Objective>,
    xs: Seq<Example>,
    fs: Seq<ProblemFamily>,
    sources: Seq<Source>,
) -> Option<ReferenceFailure> {
    match source_failure(concept_entries(cs), sources) {
        Some((e, t)) => Some(ReferenceFailure::UnresolvedSource(e, t)),
        None => match source_failure(objective_entries(os), sources) {
            Some((e, t)) => Some(ReferenceFailure::UnresolvedSource(e, t)),
            None => match source_failure(example_entries(xs), sources) {
                Some((e, t)) => Some(ReferenceFailure::UnresolvedSource(e, t)),
                None => match source_failure(family_entries(fs), sources) {
                    Some((e, t)) => Some(ReferenceFailure::UnresolvedSource(e, t)),
                    None => None,
                },
            },
        },
    }
}

pub open spec fn reference_error_is(e: KnowledgeError, f: ReferenceFailure) -> bool {
    match f {
        ReferenceFailure::UnresolvedConcept(x, t) => e matches KnowledgeError::UnresolvedConcept { entity_id, field, target }
            && entity_id@ == x && field@ == "concept_id"@ && target@ == t,
        ReferenceFailure::UnresolvedObjective(x, t) => e matches KnowledgeError::UnresolvedObjective {
            entity_id,
            field,
            target,
        } && entity_id@ == x && field@ == "objective_ids"@ && target@ == t,
        ReferenceFailure::CrossConcept(x, t) => e matches KnowledgeError::CrossConceptObjective { example_id, objective_id }
            && example_id@ == x && objective_id@ == t,
        ReferenceFailure::FamilyCrossConcept(x, t) => e matches KnowledgeError::ProblemFamilyCrossConceptObjective {
            problem_family_id,
            objective_id,
        } && problem_family_id@ == x && objective_id@ == t,
        ReferenceFailure::UnresolvedSource(x, t) => e matches KnowledgeError::UnresolvedSource { entity_id, target }
            && entity_id@ == x && target@ == t,
        ReferenceFailure::FamilyWithoutObjectives(x) => e matches KnowledgeError::MissingProblemFamilyObjectives {
            entity_id,
        } && entity_id@ == x,
    }
}

fn find_concept(cs: &Vec<Concept>, id: &ConceptId) -> (r: bool)
    ensures
        r == has_concept(cs@, id@),
{
    let mut i: usize = 0;
    while i < cs.len()
        invariant
            i <= cs.len(),
            forall|l: int| 0 <= l < i ==> #[trigger] cs@[l].id@ != id@,
        decreases cs.len() - i,
    {
        if cs[i].id.same(id) {
            return true;
        }
        i += 1;
    }
    false
}

fn find_objective(os: &Vec<Objective>, id: &ObjectiveId) -> (r: Option<usize>)
    ensures
        match r {
            Some(i) => objective_for(os@, id@) == Some(i as int),
            None => objective_for(os@, id@) is None,
        },
{
    let ghost p = with_id(os@, id@);
    let mut j: usize = os.len();
    while j > 0
        invariant
            p == with_id(os@, id@),
            j <= os.len(),
            forall|l: int| j <= l < os.len() ==> !#[trigger] p(l),
        decreases j,
    {
        j -= 1;
        if os[j].id.same(id) {
            proof {
                lemma_last_where(os.len() as int, p, j as int);
            }
            return Some(j);
        }
    }
    proof {
        lemma_last_where_none(os.len() as int, p);
    }
    None
}

fn check_links(
    id: &str,
    concept_id: &ConceptId,
    objective_ids: &Vec<ObjectiveId>,
    cs: &Vec<Concept>,
    os: &Vec<Objective>,
    family: bool,
) -> (r: Result<(), KnowledgeError>)
    ensures
        match links_failure(id@, concept_id@, objective_ids@, cs@, os@, family) {
            Some(f) => r matches Err(e) && reference_error_is(e, f),
            None => r is Ok,
        },
{
    proof {
        reveal_strlit("concept_id");
        reveal_strlit("objective_ids");
    }
    if !find_concept(cs, concept_id) {
        return Err(
            KnowledgeError::UnresolvedConcept {
                entity_id: id.to_owned(),
                field: "concept_id",
                target: concept_id.as_str().to_owned(),
            },
        );
    }
    let ghost bad = objective_bad_at(objective_ids@, concept_id@, os@);
    let mut k: usize = 0;
    while k < objective_ids.len()
        invariant
            has_concept(cs@, concept_id@),
            bad == objective_bad_at(objective_ids@, concept_id@, os@),
            k <= objective_ids.len(),
            forall|l: int| 0 <= l < k ==> !#[trigger] bad(l),
        decreases objective_ids.len() - k,
    {
        let target = &objective_ids[k];
        match find_objective(os, target) {
            None => {
                proof {
                    assert(bad(k as int));
                    lemma_first_where(objective_ids.len() as int, bad, k as int);
                }
                return Err(
                    KnowledgeError::UnresolvedObjective {
                        entity_id: id.to_owned(),
                        field: "objective_ids",
                        target: target.as_str().to_owned(),
                    },
                );
            },
            Some(o) => {
                proof {
                    lemma_last_where_some_bound(os@, target@);
                }
                if !os[o].concept_id.same(concept_id) {
                    proof {
                        assert(bad(k as int));
                        lemma_first_where(objective_ids.len() as int, bad, k as int);
                    }
                    if family {
                        return Err(
                            KnowledgeError::ProblemFamilyCrossConceptObjective {
                                problem_family_id: id.to_owned(),
                                objective_id: target.as_str().to_owned(),
                            },
                        );
                    }
                    return Err(
                        KnowledgeError::CrossConceptObjective {
                            example_id: id.to_owned(),
                            objective_id: target.as_str().to_owned(),
                        },
                    );
                }
            },
        }
        k += 1;
    }
    proof {
        lemma_first_where_none(objective_ids.len() as int, bad);
    }
    Ok(())
}

proof fn lemma_last_where_some_bound(os: Seq<Objective>, id: Seq<char>)
    requires
        objective_for(os, id) is Some,
    ensures
        0 <= objective_for(os, id)->0 < os.len(),
{
    lemma_last_where_some(os.len() as int, with_id(os, id));
}

fn find_source(sources: &Vec<Source>, id: &super::identifier::SourceId) -> (r: bool)
    ensures
        r == has_source(sources@, id@),
{
    let mut i: usize = 0;
    while i < sources.len()
        invariant
            i <= sources.len(),
            forall|l: int| 0 <= l < i ==> #[trigger] sources@[l].id@ != id@,
        decreases sources.len() - i,
    {
        if sources[i].id.same(id) {
            return true;
        }
        i += 1;
    }
    false
}

/// Rejects the first provenance reference of entity `entity_id` that names
/// no declared source.
pub fn validate_provenance_sources(entity_id: &str, refs: &Vec<ProvenanceRef>, sources: &Vec<Source>) -> (r: Result<
    (),
    KnowledgeError,
>)
    ensures
        match first_missing_source(refs@, sources@) {
            Some(t) => r matches Err(KnowledgeError::UnresolvedSource { entity_id: x, target }) && x@ == entity_id@
                && target@ == t,
            None => r is Ok,
        },
{
    let ghost bad = |k: int| !has_source(sources@, refs@[k].source_id@);
    let mut k: usize = 0;
    while k < refs.len()
        invariant
            bad == (|k: int| !has_source(sources@, refs@[k].source_id@)),
            k <= refs.len(),
            forall|l: int| 0 <= l < k ==> !#[trigger] bad(l),
        decreases refs.len() - k,
    {
        if !find_source(sources, &refs[k].source_id) {
            proof {
                assert(bad(k as int));
                lemma_first_where(refs.len() as int, bad, k as int);
            }
            return Err(
                KnowledgeError::UnresolvedSource {
                    entity_id: entity_id.to_owned(),
                    target: refs[k].source_id.as_str().to_owned(),
                },
            );
        }
        k += 1;
    }
    proof {
        lemma_first_where_none(refs.len() as int, bad);
    }
    Ok(())
}

fn concept_sources(cs: &Vec<Concept>, sources: &Vec<Source>) -> (r: Result<(), KnowledgeError>)
    ensures
        match source_failure(concept_entries(cs@), sources@) {
            Some(f) => r matches Err(e) && reference_error_is(e, ReferenceFailure::UnresolvedSource(f.0, f.1)),
            None => r is Ok,
        },
{
    let ghost es = concept_entries(cs@);
    let ghost bad = |i: int| first_missing_source(es[i].1, sources@) is Some;
    let mut i: usize = 0;
    while i < cs.len()
        invariant
            es == concept_entries(cs@),
            bad == (|i: int| first_missing_source(es[i].1, sources@) is Some),
            i <= cs.len(),
            forall|l: int| 0 <= l < i ==> !#[trigger] bad(l),
        decreases cs.len() - i,
    {
        assert(es[i as int] == (cs@[i as int].id@, cs@[i as int].provenance_refs@));
        match validate_provenance_sources(cs[i].id.as_str(), &cs[i].provenance_refs, sources) {
            Err(e) => {
                proof {
                    assert(bad(i as int));
                    lemma_first_where(es.len() as int, bad, i as int);
                }
                return Err(e);
            },
            Ok(()) => {},
        }
        i += 1;
    }
    proof {
        lemma_first_where_none(es.len() as int, bad);
    }
    Ok(())
}

fn objective_sources(os: &Vec<Objective>, sources: &Vec<Source>) -> (r: Result<(), KnowledgeError>)
    ensures
        match source_failure(objective_entries(os@), sources@) {
            Some(f) => r matches Err(e) && reference_error_is(e, ReferenceFailure::UnresolvedSource(f.0, f.1)),
            None => r is Ok,
        },
{
    let ghost es = objective_entries(os@);
    let ghost bad = |i: int| first_missing_source(es[i].1, sources@) is Some;
    let mut i: usize = 0;
    while i < os.len()
        invariant
            es == objective_entries(os@),
            bad == (|i: int| first_missing_source(es[i].1, sources@) is Some),
            i <= os.len(),
            forall|l: int| 0 <= l < i ==> !#[trigger] bad(l),
        decreases os.len() - i,
    {
        assert(es[i as int] == (os@[i as int].id@, os@[i as int].provenance_refs@));
        match validate_provenance_sources(os[i].id.as_str(), &os[i].provenance_refs, sources) {
            Err(e) => {
                proof {
                    assert(bad(i as int));
                    lemma_first_where(es.len() as int, bad, i as int);
                }
                return Err(e);
            },
            Ok(()) => {},
        }
        i += 1;
    }
    proof {
        lemma_first_where_none(es.len() as int, bad);
    }
    Ok(())
}

fn example_sources(xs: &Vec<Example>, sources: &Vec<Source>) -> (r: Result<(), KnowledgeError>)
    ensures
        match source_failure(example_entries(xs@), sources@) {
            Some(f) => r matches Err(e) && reference_error_is(e, ReferenceFailure::UnresolvedSource(f.0, f.1)),
            None => r is Ok,
        },
{
    let ghost es = example_entries(xs@);
    let ghost bad = |i: int| first_missing_source(es[i].1, sources@) is Some;
    let mut i: usize = 0;
    while i < xs.len()
        invariant
            es == example_entries(xs@),
            bad == (|i: int| first_missing_source(es[i].1, sources@) is Some),
            i <= xs.len(),
            forall|l: int| 0 <= l < i ==> !#[trigger] bad(l),
        decreases xs.len() - i,
    {
        assert(es[i as int] == (xs@[i as int].id@, xs@[i as int].provenance_refs@));
        match validate_provenance_sources(xs[i].id.as_str(), &xs[i].provenance_refs, sources) {
            Err(e) => {
                proof {
                    assert(bad(i as int));
                    lemma_first_where(es.len() as int, bad, i as int);
                }
                return Err(e);
            },
            Ok(()) => {},
        }
        i += 1;
    }
    proof {
        lemma_first_where_none(es.len() as int, bad);
    }
    Ok(())
}

fn family_sources(xs: &Vec<ProblemFamily>, sources: &Vec<Source>) -> (r: Result<(), KnowledgeError>)
    ensures
        match source_failure(family_entries(xs@), sources@) {
            Some(f) => r matches Err(e) && reference_error_is(e, ReferenceFailure::UnresolvedSource(f.0, f.1)),
            None => r is Ok,
        },
{
    let ghost es = family_entries(xs@);
    let ghost bad = |i: int| first_missing_source(es[i].1, sources@) is Some;
    let mut i: usize = 0;
    while i < xs.len()
        invariant
            es == family_entries(xs@),
            bad == (|i: int| first_missing_source(es[i].1, sources@) is Some),
            i <= xs.len(),
            forall|l: int| 0 <= l < i ==> !#[trigger] bad(l),
        decreases xs.len() - i,
    {
        assert(es[i as int] == (xs@[i as int].id@, xs@[i as int].provenance_refs@));
        match validate_provenance_sources(xs[i].id.as_str(), &xs[i].provenance_refs, sources) {
            Err(e) => {
                proof {
                    assert(bad(i as int));
                    lemma_first_where(es.len() as int, bad, i as int);
                }
                return Err(e);
            },
            Ok(()) => {},
        }
        i += 1;
    }
    proof {
        lemma_first_where_none(es.len() as int, bad);
    }
    Ok(())
}

/// Validates the references between the entities of a package and its
/// sources.
#[verifier::loop_isolation(false)]
pub fn validate_references(entities: &DiscoveredEntities, sources: &Vec<Source>) -> (r: Result<(), KnowledgeError>)
    ensures
        match references_spec(
            entities.concepts@,
            entities.objectives@,
            entities.examples@,
            entities.problem_families@,
            sources@,
        ) {
            Some(f) => r matches Err(e) && reference_error_is(e, f),
            None => r is Ok,
        },
{
    proof {
        reveal_strlit("concept_id");
    }
    let cs = &entities.concepts;
    let os = &entities.objectives;
    let xs = &entities.examples;
    let fs = &entities.problem_families;
    let ghost bad_o = |i: int| !has_concept(cs@, os@[i].concept_id@);
    let mut i: usize = 0;
    while i < os.len()
        invariant
            bad_o == (|i: int| !has_concept(cs@, os@[i].concept_id@)),
            i <= os.len(),
            forall|l: int| 0 <= l < i ==> !#[trigger] bad_o(l),
        decreases os.len() - i,
    {
        if !find_concept(cs, &os[i].concept_id) {
            proof {
                assert(bad_o(i as int));
                lemma_first_where(os.len() as int, bad_o, i as int);
            }
            return Err(
                KnowledgeError::UnresolvedConcept {
                    entity_id: os[i].id.as_str().to_owned(),
                    field: "concept_id",
                    target: os[i].concept_id.as_str().to_owned(),
                },
            );
        }
        i += 1;
    }
    proof {
        lemma_first_where_none(os.len() as int, bad_o);
    }
    let ghost bad_x = |i: int| example_failure(xs@[i], cs@, os@) is Some;
    let mut i: usize = 0;
    while i < xs.len()
        invariant
            bad_x == (|i: int| example_failure(xs@[i], cs@, os@) is Some),
            i <= xs.len(),
            forall|l: int| 0 <= l < i ==> !#[trigger] bad_x(l),
        decreases xs.len() - i,
    {
        let x = &xs[i];
        match check_links(x.id.as_str(), &x.concept_id, &x.objective_ids, cs, os, false) {
            Err(e) => {
                proof {
                    assert(bad_x(i as int));
                    lemma_first_where(xs.len() as int, bad_x, i as int);
                }
                return Err(e);
            },
            Ok(()) => {},
        }
        i += 1;
    }
    proof {
        lemma_first_where_none(xs.len() as int, bad_x);
    }
    let ghost bad_f = |i: int| family_failure(fs@[i], cs@, os@) is Some;
    let mut i: usize = 0;
    while i < fs.len()
        invariant
            bad_f == (|i: int| family_failure(fs@[i], cs@, os@) is Some),
            i <= fs.len(),
            forall|l: int| 0 <= l < i ==> !#[trigger] bad_f(l),
        decreases fs.len() - i,
    {
        let f = &fs[i];
        if f.objective_ids.len() == 0 {
            proof {
                assert(bad_f(i as int));
                lemma_first_where(fs.len() as int, bad_f, i as int);
            }
            return Err(KnowledgeError::MissingProblemFamilyObjectives { entity_id: f.id.as_str().to_owned() });
        }
        match check_links(f.id.as_str(), &f.concept_id, &f.objective_ids, cs, os, true) {
            Err(e) => {
                proof {
                    assert(bad_f(i as int));
                    lemma_first_where(fs.len() as int, bad_f, i as int);
                }
                return Err(e);
            },
            Ok(()) => {},
        }
        i += 1;
    }
    proof {
        lemma_first_where_none(fs.len() as int, bad_f);
    }
    concept_sources(cs, sources)?;
    objective_sources(os, sources)?;
    example_sources(xs, sources)?;
    family_sources(fs, sources)
}

/// An entity citing an undeclared source makes the provenance stage fail.
proof fn lemma_missing_source_found(
    entities: Seq<(Seq<char>, Seq<ProvenanceRef>)>,
    sources: Seq<Source>,
    i: int,
    k: int,
)
    requires
        0 <= i < entities.len(),
        0 <= k < entities[i].1.len(),
        forall|j: int| 0 <= j < sources.len() ==> sources[j].id@ != entities[i].1[k].source_id@,
    ensures
        source_failure(entities, sources) is Some,
{
    let refs = entities[i].1;
    let g = |l: int| !has_source(sources, refs[l].source_id@);
    assert(g(k));
    assert(exists|l: int| 0 <= l < refs.len() && #[trigger] g(l));
    let f = |e: int| first_missing_source(entities[e].1, sources) is Some;
    assert(f(i));
    assert(exists|e: int| 0 <= e < entities.len() && #[trigger] f(e));
}

proof fn lemma_sources_then_references(
    cs: Seq<Concept>,
    os: Seq<Objective>,
    xs: Seq<Example>,
    fs: Seq<ProblemFamily>,
    sources: Seq<Source>,
)
    requires
        sources_spec(cs, os, xs, fs, sources) is Some,
    ensures
        references_spec(cs, os, xs, fs, sources) is Some,
{
    let px = |i: int| example_failure(xs[i], cs, os) is Some;
    let pf = |i: int| family_failure(fs[i], cs, os) is Some;
    if first_where(xs.len() as int, px) is Some {
        crate::text::lemma_first_where_some(xs.len() as int, px);
    }
    if first_where(fs.len() as int, pf) is Some {
        crate::text::lemma_first_where_some(fs.len() as int, pf);
    }
}

/// Law: when a concept, an objective, an example or a problem family cites a
/// source id that no declared source has, reference validation fails.
#[verifier::spinoff_prover]
pub proof fn lemma_undeclared_source_is_rejected(
    cs: Seq<Concept>,
    os: Seq<Objective>,
    xs: Seq<Example>,
    fs: Seq<ProblemFamily>,
    sources: Seq<Source>,
    i: int,
    k: int,
)
    ensures
        (0 <= i < cs.len() && 0 <= k < cs[i].provenance_refs.len() && forall|j: int|
            0 <= j < sources.len() ==> sources[j].id@ != cs[i].provenance_refs@[k].source_id@)
            ==> references_spec(cs, os, xs, fs, sources) is Some,
        (0 <= i < os.len() && 0 <= k < os[i].provenance_refs.len() && forall|j: int|
            0 <= j < sources.len() ==> sources[j].id@ != os[i].provenance_refs@[k].source_id@)
            ==> references_spec(cs, os, xs, fs, sources) is Some,
        (0 <= i < xs.len() && 0 <= k < xs[i].provenance_refs.len() && forall|j: int|
            0 <= j < sources.len() ==> sources[j].id@ != xs[i].provenance_refs@[k].source_id@)
            ==> references_spec(cs, os, xs, fs, sources) is Some,
        (0 <= i < fs.len() && 0 <= k < fs[i].provenance_refs.len() && forall|j: int|
            0 <= j < sources.len() ==> sources[j].id@ != fs[i].provenance_refs@[k].source_id@)
            ==> references_spec(cs, os, xs, fs, sources) is Some,
{
    if 0 <= i < cs.len() && 0 <= k < cs[i].provenance_refs.len() && forall|j: int|
        0 <= j < sources.len() ==> sources[j].id@ != cs[i].provenance_refs@[k].source_id@ {
        assert(concept_entries(cs)[i] == (cs[i].id@, cs[i].provenance_refs@));
        lemma_missing_source_found(concept_entries(cs), sources, i, k);
        assert(sources_spec(cs, os, xs, fs, sources) is Some);
        lemma_sources_then_references(cs, os, xs, fs, sources);
    }
    if 0 <= i < os.len() && 0 <= k < os[i].provenance_refs.len() && forall|j: int|
        0 <= j < sources.len() ==> sources[j].id@ != os[i].provenance_refs@[k].source_id@ {
        assert(objective_entries(os)[i] == (os[i].id@, os[i].provenance_refs@));
        lemma_missing_source_found(objective_entries(os), sources, i, k);
        assert(sources_spec(cs, os, xs, fs, sources) is Some);
        lemma_sources_then_references(cs, os, xs, fs, sources);
    }
    if 0 <= i < xs.len() && 0 <= k < xs[i].provenance_refs.len() && forall|j: int|
        0 <= j < sources.len() ==> sources[j].id@ != xs[i].provenance_refs@[k].source_id@ {
        assert(example_entries(xs)[i] == (xs[i].id@, xs[i].provenance_refs@));
        lemma_missing_source_found(example_entries(xs), sources, i, k);
        assert(sources_spec(cs, os, xs, fs, sources) is Some);
        lemma_sources_then_references(cs, os, xs, fs, sources);
    }
    if 0 <= i < fs.len() && 0 <= k < fs[i].provenance_refs.len() && forall|j: int|
        0 <= j < sources.len() ==> sources[j].id@ != fs[i].provenance_refs@[k].source_id@ {
        assert(family_entries(fs)[i] == (fs[i].id@, fs[i].provenance_refs@));
        lemma_missing_source_found(family_entries(fs), sources, i, k);
        assert(sources_spec(cs, os, xs, fs, sources) is Some);
        lemma_sources_then_references(cs, os, xs, fs, sources);
    }
}

/// Links fail when the concept is missing, or an objective id names no
/// objective, or names only objectives of other concepts.
proof fn lemma_links_fail(
    id: Seq<char>,
    concept: Seq<char>,
    ids: Seq<ObjectiveId>,
    cs: Seq<Concept>,
    os: Seq<Objective>,
    family: bool,
    k: int,
)
    requires
        (forall|m: int| 0 <= m < cs.len() ==> cs[m].id@ != concept) || (0 <= k < ids.len() && forall|m: int|
            0 <= m < os.len() && os[m].id@ == ids[k]@ ==> os[m].concept_id@ != concept),
    ensures
        links_failure(id, concept, ids, cs, os, family) is Some,
{
    if has_concept(cs, concept) {
        let i = choose|i: int| 0 <= i < cs.len() && #[trigger] cs[i].id@ == concept;
        assert(cs[i].id@ == concept);
        let bad = objective_bad_at(ids, concept, os);
        match objective_for(os, ids[k]@) {
            None => {},
            Some(o) => {
                lemma_last_where_some(os.len() as int, with_id(os, ids[k]@));
                assert(os[o].id@ == ids[k]@);
            },
        }
        assert(bad(k));
        assert(exists|l: int| 0 <= l < ids.len() && #[trigger] bad(l));
    }
}

/// Any failing stage makes reference validation fail.
proof fn lemma_stage_fails(
    cs: Seq<Concept>,
    os: Seq<Objective>,
    xs: Seq<Example>,
    fs: Seq<ProblemFamily>,
    sources: Seq<Source>,
    i: int,
)
    requires
        (0 <= i < os.len() && !has_concept(cs, os[i].concept_id@)) || (0 <= i < xs.len() && example_failure(
            xs[i],
            cs,
            os,
        ) is Some) || (0 <= i < fs.len() && family_failure(fs[i], cs, os) is Some),
    ensures
        references_spec(cs, os, xs, fs, sources) is Some,
{
    let po = |j: int| !has_concept(cs, os[j].concept_id@);
    let px = |j: int| example_failure(xs[j], cs, os) is Some;
    let pf = |j: int| family_failure(fs[j], cs, os) is Some;
    if 0 <= i < os.len() && po(i) {
        assert(exists|j: int| 0 <= j < os.len() && #[trigger] po(j));
    } else if 0 <= i < xs.len() && px(i) {
        assert(exists|j: int| 0 <= j < xs.len() && #[trigger] px(j));
    } else {
        assert(pf(i));
        assert(exists|j: int| 0 <= j < fs.len() && #[trigger] pf(j));
    }
    if first_where(xs.len() as int, px) is Some {
        crate::text::lemma_first_where_some(xs.len() as int, px);
    }
    if first_where(fs.len() as int, pf) is Some {
        crate::text::lemma_first_where_some(fs.len() as int, pf);
    }
}

/// Law: reference validation fails when an objective's concept is missing;
/// when an example's or a problem family's concept is missing, or one of its
/// objective ids names no objective or only objectives of another concept;
/// and when a problem family names no objective at all.
pub proof fn lemma_broken_links_are_rejected(
    cs: Seq<Concept>,
    os: Seq<Objective>,
    xs: Seq<Example>,
    fs: Seq<ProblemFamily>,
    sources: Seq<Source>,
    i: int,
    k: int,
)
    ensures
        (0 <= i < os.len() && forall|m: int| 0 <= m < cs.len() ==> cs[m].id@ != os[i].concept_id@)
            ==> references_spec(cs, os, xs, fs, sources) is Some,
        (0 <= i < xs.len() && ((forall|m: int| 0 <= m < cs.len() ==> cs[m].id@ != xs[i].concept_id@) || (0 <= k
            < xs[i].objective_ids.len() && forall|m: int|
            0 <= m < os.len() && os[m].id@ == xs[i].objective_ids@[k]@ ==> os[m].concept_id@ != xs[i].concept_id@)))
            ==> references_spec(cs, os, xs, fs, sources) is Some,
        (0 <= i < fs.len() && ((forall|m: int| 0 <= m < cs.len() ==> cs[m].id@ != fs[i].concept_id@) || (0 <= k
            < fs[i].objective_ids.len() && forall|m: int|
            0 <= m < os.len() && os[m].id@ == fs[i].objective_ids@[k]@ ==> os[m].concept_id@ != fs[i].concept_id@)))
            ==> references_spec(cs, os, xs, fs, sources) is Some,
        (0 <= i < fs.len() && fs[i].objective_ids.len() == 0) ==> references_spec(cs, os, xs, fs, sources) is Some,
{
    if 0 <= i < os.len() && forall|m: int| 0 <= m < cs.len() ==> cs[m].id@ != os[i].concept_id@ {
        assert(!has_concept(cs, os[i].concept_id@));
        lemma_stage_fails(cs, os, xs, fs, sources, i);
    }
    if 0 <= i < xs.len() && ((forall|m: int| 0 <= m < cs.len() ==> cs[m].id@ != xs[i].concept_id@) || (0 <= k
        < xs[i].objective_ids.len() && forall|m: int|
        0 <= m < os.len() && os[m].id@ == xs[i].objective_ids@[k]@ ==> os[m].concept_id@ != xs[i].concept_id@)) {
        lemma_links_fail(xs[i].id@, xs[i].concept_id@, xs[i].objective_ids@, cs, os, false, k);
        lemma_stage_fails(cs, os, xs, fs, sources, i);
    }
    if 0 <= i < fs.len() && ((forall|m: int| 0 <= m < cs.len() ==> cs[m].id@ != fs[i].concept_id@) || (0 <= k
        < fs[i].objective_ids.len() && forall|m: int|
        0 <= m < os.len() && os[m].id@ == fs[i].objective_ids@[k]@ ==> os[m].concept_id@ != fs[i].concept_id@)) {
        lemma_links_fail(fs[i].id@, fs[i].concept_id@, fs[i].objective_ids@, cs, os, true, k);
        lemma_stage_fails(cs, os, xs, fs, sources, i);
    }
    if 0 <= i < fs.len() && fs[i].objective_ids.len() == 0 {
        lemma_stage_fails(cs, os, xs, fs, sources, i);
    }
}

} // verus!
