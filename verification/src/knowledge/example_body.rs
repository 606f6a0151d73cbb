//! The Markdown body of a worked example: `## Problem`, `## Solution` and an
//! optional `## Hints` list, in that order.
use vstd::prelude::*;

use crate::text::{chars_of, views};

use super::error::KnowledgeError;
use super::sections::{body_spec, parse_body, BodyError, BodyFailure};

verus! {

/// The three sections of an example body.
pub struct ParsedExampleBody {
    pub problem: String,
    pub solution: String,
    pub hints: Vec<String>,
}

pub open spec fn example_headings() -> Seq<Seq<char>> {
    seq!["## Problem"@, "## Solution"@, "## Hints"@]
}

/// The name an error gives the section in position `k`.
pub open spec fn example_section_name(k: int) -> Seq<char> {
    if k == 0 {
        "Problem"@
    } else if k == 1 {
        "Solution"@
    } else {
        "Hints"@
    }
}

/// The error for a rejected example body of entity `id`.
pub open spec fn example_error(e: KnowledgeError, id: Seq<char>, f: BodyFailure) -> bool {
    match f {
        BodyFailure::UnknownHeading(h) => e matches KnowledgeError::UnknownExampleSection { entity_id, heading }
            && entity_id@ == id && heading@ == h,
        BodyFailure::ContentBeforeFirst => e matches KnowledgeError::ContentBeforeProblem { entity_id }
            && entity_id@ == id,
        BodyFailure::Duplicate(k) => e matches KnowledgeError::DuplicateExampleSection { entity_id, section }
            && entity_id@ == id && section@ == example_section_name(k),
        BodyFailure::OutOfOrder(k) => e matches KnowledgeError::OutOfOrderExampleSection { entity_id, section }
            && entity_id@ == id && section@ == example_section_name(k),
        BodyFailure::Missing(k) => e matches KnowledgeError::MissingExampleSection { entity_id, section }
            && entity_id@ == id && section@ == example_section_name(k),
        BodyFailure::InvalidHintLine(l) => e matches KnowledgeError::InvalidHintLine { entity_id, line }
            && entity_id@ == id && line@ == l,
        BodyFailure::EmptyHints => e matches KnowledgeError::EmptyHintsSection { entity_id }
            && entity_id@ == id,
    }
}

fn example_section(k: usize) -> (r: &'static str)
    ensures
        r@ == example_section_name(k as int),
{
    proof {
        reveal_strlit("Problem");
        reveal_strlit("Solution");
        reveal_strlit("Hints");
    }
    if k == 0 {
        "Problem"
    } else if k == 1 {
        "Solution"
    } else {
        "Hints"
    }
}

/// Parses the body of example `entity_id`. A `## Hints` section, when present,
/// must hold at least one `- ` line.
pub fn parse_example_body(entity_id: &str, body: &str) -> (r: Result<ParsedExampleBody, KnowledgeError>)
    ensures
        match (r, body_spec(body@, example_headings(), true)) {
            (Ok(p), Ok((problem, solution, hints))) => p.problem@ == problem && p.solution@ == solution
                && p.hints@.map_values(|s: String| s@) == hints,
            (Err(e), Err(f)) => example_error(e, entity_id@, f),
            _ => false,
        },
{
    let mut headings: Vec<Vec<char>> = Vec::new();
    headings.push(chars_of("## Problem"));
    headings.push(chars_of("## Solution"));
    headings.push(chars_of("## Hints"));
    assert(views(headings@) =~= example_headings());
    let id = entity_id.to_owned();
    match parse_body(body, &headings, true) {
        Ok((problem, solution, hints)) => Ok(ParsedExampleBody { problem, solution, hints }),
        Err(BodyError::UnknownHeading(heading)) => Err(
            KnowledgeError::UnknownExampleSection { entity_id: id, heading },
        ),
        Err(BodyError::ContentBeforeFirst) => Err(KnowledgeError::ContentBeforeProblem { entity_id: id }),
        Err(BodyError::Duplicate(k)) => Err(
            KnowledgeError::DuplicateExampleSection { entity_id: id, section: example_section(k) },
        ),
        Err(BodyError::OutOfOrder(k)) => Err(
            KnowledgeError::OutOfOrderExampleSection { entity_id: id, section: example_section(k) },
        ),
        Err(BodyError::Missing(k)) => Err(
            KnowledgeError::MissingExampleSection { entity_id: id, section: example_section(k) },
        ),
        Err(BodyError::InvalidHintLine(line)) => Err(KnowledgeError::InvalidHintLine { entity_id: id, line }),
        Err(BodyError::EmptyHints) => Err(KnowledgeError::EmptyHintsSection { entity_id: id }),
    }
}

} // verus!
