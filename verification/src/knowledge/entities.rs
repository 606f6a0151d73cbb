//! Concepts, objectives and examples built from their frontmatter and body.
use vstd::prelude::*;

use crate::modules::identifier::valid_identifier;
use crate::text::{lemma_first_where_some, trim, trim_string};

use super::error::KnowledgeError;
use super::example_body::{example_error, example_headings, parse_example_body};
use super::identifier::{concept_ids, first_invalid, objective_ids, ConceptId, ExampleId, ObjectiveId};
use super::provenance::{convert_provenance_refs, provenance_error_is, provenance_spec, ref_v};
use super::raw::{RawConceptFrontmatter, RawExampleFrontmatter, RawObjectiveFrontmatter};
use super::sections::body_spec;
use super::types::{Concept, Example, Objective, ProvenanceRef};

verus! {

pub open spec fn string_views(v: Seq<String>) -> Seq<Seq<char>> {
    v.map_values(|s: String| s@)
}

pub open spec fn invalid_is(e: KnowledgeError, v: Seq<char>) -> bool {
    e matches KnowledgeError::InvalidIdentifier { value } && value@ == v
}

pub open spec fn empty_description(e: KnowledgeError, path: Seq<char>) -> bool {
    e matches KnowledgeError::EmptyField { path: p, field } && p@ == path && field@ == "description"@
}

/// Converts ids, reporting the first invalid one of `vs`.
proof fn lemma_first_invalid_value(vs: Seq<String>)
    requires
        first_invalid(string_views(vs)) is Some,
    ensures
        0 <= first_invalid(string_views(vs))->0 < vs.len(),
        string_views(vs)[first_invalid(string_views(vs))->0] == vs[first_invalid(string_views(vs))->0]@,
{
    let s = string_views(vs);
    lemma_first_where_some(s.len() as int, |i: int| !valid_identifier(s[i]));
}

/// What building a concept gives: its id, prerequisite ids and related ids
/// must be identifiers; its description (the body) must not be blank; its
/// provenance must be valid.
pub open spec fn concept_outcome(path: Seq<char>, raw: RawConceptFrontmatter, body: Seq<char>, r: Result<Concept, KnowledgeError>) -> bool {
    let pre = string_views(raw.prerequisite_ids@);
    let rel = string_views(raw.related_ids@);
    if !valid_identifier(raw.id@) {
        r matches Err(e) && invalid_is(e, raw.id@)
    } else if first_invalid(pre) is Some {
        r matches Err(e) && invalid_is(e, pre[first_invalid(pre)->0])
    } else if first_invalid(rel) is Some {
        r matches Err(e) && invalid_is(e, rel[first_invalid(rel)->0])
    } else if trim(body).len() == 0 {
        r matches Err(e) && empty_description(e, path)
    } else {
        match provenance_spec(raw.provenance_refs@) {
            Err(f) => r matches Err(e) && provenance_error_is(e, raw.id@, f),
            Ok(refs) => r matches Ok(c) && c.id@ == raw.id@ && c.name@ == raw.name@ && c.topic == raw.topic
                && c.description@ == body && c.prerequisite_ids@.map_values(|x: ConceptId| x@) == pre
                && c.related_ids@.map_values(|x: ConceptId| x@) == rel && c.provenance_refs@.map_values(
                |x: ProvenanceRef| ref_v(x),
            ) == refs,
        }
    }
}

/// Builds the concept of file `path` from its frontmatter and body.
pub fn concept_from_parts(path: &str, raw: RawConceptFrontmatter, body: String) -> (r: Result<Concept, KnowledgeError>)
    ensures
        concept_outcome(path@, raw, body@, r),
{
    proof {
        reveal_strlit("description");
    }
    let id = ConceptId::new(raw.id.as_str())?;
    let prerequisite_ids = match concept_ids(&raw.prerequisite_ids) {
        Ok(v) => v,
        Err(e) => {
            proof {
                lemma_first_invalid_value(raw.prerequisite_ids@);
            }
            return Err(e);
        },
    };
    let related_ids = match concept_ids(&raw.related_ids) {
        Ok(v) => v,
        Err(e) => {
            proof {
                lemma_first_invalid_value(raw.related_ids@);
            }
            return Err(e);
        },
    };
    if trim_string(body.as_str()).as_str().is_empty() {
        return Err(KnowledgeError::EmptyField { path: path.to_owned(), field: "description" });
    }
    let provenance_refs = match convert_provenance_refs(id.as_str(), raw.provenance_refs) {
        Ok(p) => p,
        Err(e) => {
            return Err(e);
        },
    };
    Ok(Concept {
        id,
        name: raw.name,
        topic: raw.topic,
        description: body,
        prerequisite_ids,
        related_ids,
        provenance_refs,
    })
}

/// What building an objective gives.
pub open spec fn objective_outcome(path: Seq<char>, raw: RawObjectiveFrontmatter, body: Seq<char>, r: Result<Objective, KnowledgeError>) -> bool {
    if !valid_identifier(raw.id@) {
        r matches Err(e) && invalid_is(e, raw.id@)
    } else if !valid_identifier(raw.concept_id@) {
        r matches Err(e) && invalid_is(e, raw.concept_id@)
    } else if trim(body).len() == 0 {
        r matches Err(e) && empty_description(e, path)
    } else {
        match provenance_spec(raw.provenance_refs@) {
            Err(f) => r matches Err(e) && provenance_error_is(e, raw.id@, f),
            Ok(refs) => r matches Ok(o) && o.id@ == raw.id@ && o.concept_id@ == raw.concept_id@ && o.description@
                == body && o.provenance_refs@.map_values(|x: ProvenanceRef| ref_v(x)) == refs,
        }
    }
}

/// Builds the objective of file `path` from its frontmatter and body.
pub fn objective_from_parts(path: &str, raw: RawObjectiveFrontmatter, body: String) -> (r: Result<Objective, KnowledgeError>)
    ensures
        objective_outcome(path@, raw, body@, r),
{
    proof {
        reveal_strlit("description");
    }
    let id = ObjectiveId::new(raw.id.as_str())?;
    let concept_id = ConceptId::new(raw.concept_id.as_str())?;
    if trim_string(body.as_str()).as_str().is_empty() {
        return Err(KnowledgeError::EmptyField { path: path.to_owned(), field: "description" });
    }
    let provenance_refs = match convert_provenance_refs(id.as_str(), raw.provenance_refs) {
        Ok(p) => p,
        Err(e) => {
            return Err(e);
        },
    };
    Ok(Objective { id, concept_id, description: body, provenance_refs })
}

/// What building an example gives: ids, then the body's sections, then the
/// provenance.
pub open spec fn example_outcome(raw: RawExampleFrontmatter, body: Seq<char>, r: Result<Example, KnowledgeError>) -> bool {
    let objs = string_views(raw.objective_ids@);
    if !valid_identifier(raw.id@) {
        r matches Err(e) && invalid_is(e, raw.id@)
    } else if !valid_identifier(raw.concept_id@) {
        r matches Err(e) && invalid_is(e, raw.concept_id@)
    } else if first_invalid(objs) is Some {
        r matches Err(e) && invalid_is(e, objs[first_invalid(objs)->0])
    } else {
        match body_spec(body, example_headings(), true) {
            Err(f) => r matches Err(e) && example_error(e, raw.id@, f),
            Ok((problem, solution, hints)) => match provenance_spec(raw.provenance_refs@) {
                Err(f) => r matches Err(e) && provenance_error_is(e, raw.id@, f),
                Ok(refs) => r matches Ok(x) && x.id@ == raw.id@ && x.concept_id@ == raw.concept_id@
                    && x.objective_ids@.map_values(|o: ObjectiveId| o@) == objs && x.problem@ == problem
                    && x.solution@ == solution && string_views(x.hints@) == hints && x.provenance_refs@.map_values(
                    |p: ProvenanceRef| ref_v(p),
                ) == refs,
            },
        }
    }
}

/// Builds an example from its frontmatter and body.
pub fn example_from_parts(raw: RawExampleFrontmatter, body: &str) -> (r: Result<Example, KnowledgeError>)
    ensures
        example_outcome(raw, body@, r),
{
    let id = ExampleId::new(raw.id.as_str())?;
    let concept_id = ConceptId::new(raw.concept_id.as_str())?;
    let objective_ids = match objective_ids(&raw.objective_ids) {
        Ok(v) => v,
        Err(e) => {
            proof {
                lemma_first_invalid_value(raw.objective_ids@);
            }
            return Err(e);
        },
    };
    let parsed = parse_example_body(id.as_str(), body)?;
    let provenance_refs = match convert_provenance_refs(id.as_str(), raw.provenance_refs) {
        Ok(p) => p,
        Err(e) => {
            return Err(e);
        },
    };
    Ok(Example {
        id,
        concept_id,
        objective_ids,
        problem: parsed.problem,
        solution: parsed.solution,
        hints: parsed.hints,
        provenance_refs,
    })
}

} // verus!
