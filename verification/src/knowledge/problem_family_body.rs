//! The Markdown body of a problem family: `## Prompt`, `## Solution` and an
//! optional `## Hints` list, in that order.
use vstd::prelude::*;

use crate::text::{chars_of, views};

use super::error::KnowledgeError;
use super::sections::{body_spec, lemma_hints_optional, parse_body, BodyError, BodyFailure};

verus! {

/// The three sections of a problem-family body.
pub struct ParsedProblemFamilyBody {
    pub prompt: String,
    pub solution_structure: String,
    pub hint_texts: Vec<String>,
}

pub open spec fn problem_family_headings() -> Seq<Seq<char>> {
    seq!["## Prompt"@, "## Solution"@, "## Hints"@]
}

/// The name an error gives the section in position `k`.
pub open spec fn problem_family_section_name(k: int) -> Seq<char> {
    if k == 0 {
        "Prompt"@
    } else if k == 1 {
        "Solution"@
    } else {
        "Hints"@
    }
}

/// The error for a rejected problem-family body of entity `id`.
pub open spec fn problem_family_error(e: KnowledgeError, id: Seq<char>, f: BodyFailure) -> bool {
    match f {
        BodyFailure::UnknownHeading(h) => e matches KnowledgeError::UnknownProblemFamilySection { entity_id, heading }
            && entity_id@ == id && heading@ == h,
        BodyFailure::ContentBeforeFirst => e matches KnowledgeError::ContentBeforePrompt { entity_id }
            && entity_id@ == id,
        BodyFailure::Duplicate(k) => e matches KnowledgeError::DuplicateProblemFamilySection { entity_id, section }
            && entity_id@ == id && section@ == problem_family_section_name(k),
        BodyFailure::OutOfOrder(k) => e matches KnowledgeError::OutOfOrderProblemFamilySection { entity_id, section }
            && entity_id@ == id && section@ == problem_family_section_name(k),
        BodyFailure::Missing(k) => e matches KnowledgeError::MissingProblemFamilySection { entity_id, section }
            && entity_id@ == id && section@ == problem_family_section_name(k),
        BodyFailure::InvalidHintLine(l) => e matches KnowledgeError::InvalidProblemFamilyHintLine { entity_id, line }
            && entity_id@ == id && line@ == l,
        BodyFailure::EmptyHints => false,
    }
}

fn problem_family_section(k: usize) -> (r: &'static str)
    ensures
        r@ == problem_family_section_name(k as int),
{
    proof {
        reveal_strlit("Prompt");
        reveal_strlit("Solution");
        reveal_strlit("Hints");
    }
    if k == 0 {
        "Prompt"
    } else if k == 1 {
        "Solution"
    } else {
        "Hints"
    }
}

/// Parses the body of problem family `entity_id`. A `## Hints` section may be
/// empty.
pub fn parse_problem_family_body(entity_id: &str, body: &str) -> (r: Result<ParsedProblemFamilyBody, KnowledgeError>)
    ensures
        match (r, body_spec(body@, problem_family_headings(), false)) {
            (Ok(p), Ok((prompt, solution, hints))) => p.prompt@ == prompt && p.solution_structure@ == solution
                && p.hint_texts@.map_values(|s: String| s@) == hints,
            (Err(e), Err(f)) => problem_family_error(e, entity_id@, f),
            _ => false,
        },
{
    let mut headings: Vec<Vec<char>> = Vec::new();
    headings.push(chars_of("## Prompt"));
    headings.push(chars_of("## Solution"));
    headings.push(chars_of("## Hints"));
    assert(views(headings@) =~= problem_family_headings());
    let id = entity_id.to_owned();
    proof {
        lemma_hints_optional(body@, problem_family_headings());
    }
    match parse_body(body, &headings, false) {
        Ok((prompt, solution_structure, hint_texts)) => Ok(
            ParsedProblemFamilyBody { prompt, solution_structure, hint_texts },
        ),
        Err(BodyError::UnknownHeading(heading)) => Err(
            KnowledgeError::UnknownProblemFamilySection { entity_id: id, heading },
        ),
        Err(BodyError::ContentBeforeFirst) => Err(KnowledgeError::ContentBeforePrompt { entity_id: id }),
        Err(BodyError::Duplicate(k)) => Err(
            KnowledgeError::DuplicateProblemFamilySection { entity_id: id, section: problem_family_section(k) },
        ),
        Err(BodyError::OutOfOrder(k)) => Err(
            KnowledgeError::OutOfOrderProblemFamilySection { entity_id: id, section: problem_family_section(k) },
        ),
        Err(BodyError::Missing(k)) => Err(
            KnowledgeError::MissingProblemFamilySection { entity_id: id, section: problem_family_section(k) },
        ),
        Err(BodyError::InvalidHintLine(line)) => Err(KnowledgeError::InvalidProblemFamilyHintLine { entity_id: id, line }),
        Err(BodyError::EmptyHints) => Err(KnowledgeError::EmptyHintsSection { entity_id: id }),
    }
}

} // verus!
