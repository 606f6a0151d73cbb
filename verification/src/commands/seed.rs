//! The lookups that importing the sample workspace makes while it writes the
//! seed into the database: the seed must hold its sample workspace, each
//! enabled module must be one of the seed's modules, and each material result
//! goes to the material of its concept's workspace.
use vstd::prelude::*;

use crate::text::{
    append_str, first_where, last_where, lemma_first_where, lemma_first_where_none, lemma_last_where,
    lemma_last_where_none, str_eq, string_views,
};

use super::models::{Concept, Material, Module};

verus! {

fn message(prefix: &str, value: &str) -> (r: String)
    ensures
        r@ == prefix@ + value@,
{
    let mut m = String::new();
    append_str(&mut m, prefix);
    append_str(&mut m, value);
    m
}

pub open spec fn sample_workspace_missing(id: Seq<char>) -> Seq<char> {
    "Sample workspace not found in seed: "@ + id
}

/// The seed's sample workspace must be one of its workspaces.
pub fn check_sample_workspace(workspace_ids: &Vec<String>, sample_id: &str) -> (r: Result<(), String>)
    ensures
        r is Ok <==> string_views(workspace_ids@).contains(sample_id@),
        r matches Err(m) ==> m@ == sample_workspace_missing(sample_id@),
{
    let mut i: usize = 0;
    while i < workspace_ids.len()
        invariant
            i <= workspace_ids.len(),
            forall|j: int| 0 <= j < i ==> workspace_ids@[j]@ != sample_id@,
        decreases workspace_ids.len() - i,
    {
        if str_eq(workspace_ids[i].as_str(), sample_id) {
            assert(string_views(workspace_ids@)[i as int] == sample_id@);
            return Ok(());
        }
        i += 1;
    }
    proof {
        reveal_strlit("Sample workspace not found in seed: ");
        if string_views(workspace_ids@).contains(sample_id@) {
            let k = choose|k: int| 0 <= k < string_views(workspace_ids@).len() && string_views(workspace_ids@)[k] == sample_id@;
            assert(workspace_ids@[k]@ == sample_id@);
        }
    }
    Err(message("Sample workspace not found in seed: ", sample_id))
}

/// The modules of `ms` whose id is `id`.
pub open spec fn module_with_id(ms: Seq<Module>, id: Seq<char>) -> spec_fn(int) -> bool {
    |i: int| ms[i].id@ == id
}

pub open spec fn sample_module_missing(id: Seq<char>) -> Seq<char> {
    "Sample module not found: "@ + id
}

/// The position of the first seed module with id `module_id`, whose visibility
/// an enabled module takes over.
pub fn sample_module_index(modules: &Vec<Module>, module_id: &str) -> (r: Result<usize, String>)
    ensures
        match first_where(modules.len() as int, module_with_id(modules@, module_id@)) {
            Some(i) => r == Ok::<usize, String>(i as usize),
            None => r matches Err(m) && m@ == sample_module_missing(module_id@),
        },
{
    let ghost p = module_with_id(modules@, module_id@);
    let mut i: usize = 0;
    while i < modules.len()
        invariant
            i <= modules.len(),
            p == module_with_id(modules@, module_id@),
            forall|j: int| 0 <= j < i ==> !#[trigger] p(j),
        decreases modules.len() - i,
    {
        if str_eq(modules[i].id.as_str(), module_id) {
            proof {
                lemma_first_where(modules.len() as int, p, i as int);
            }
            return Ok(i);
        }
        i += 1;
    }
    proof {
        lemma_first_where_none(modules.len() as int, p);
        reveal_strlit("Sample module not found: ");
    }
    Err(message("Sample module not found: ", module_id))
}

/// The concepts of `cs` whose id is `id`.
pub open spec fn concept_with_id(cs: Seq<Concept>, id: Seq<char>) -> spec_fn(int) -> bool {
    |i: int| cs[i].id@ == id
}

/// The materials of `ms` that belong to workspace `ws`.
pub open spec fn material_of_workspace(ms: Seq<Material>, ws: Seq<char>) -> spec_fn(int) -> bool {
    |i: int| ms[i].workspace_id@ == ws
}

pub open spec fn sample_concept_missing(id: Seq<char>) -> Seq<char> {
    "Sample concept not found: "@ + id
}

pub open spec fn sample_material_missing(id: Seq<char>) -> Seq<char> {
    "Sample material not found for concept: "@ + id
}

/// Where a material result of concept `concept_id` is written: the workspace
/// of the last concept with that id, then the last material of that
/// workspace (later entries of the seed win, as when they are collected by
/// key).
pub open spec fn material_for_spec(cs: Seq<Concept>, ms: Seq<Material>, concept_id: Seq<char>) -> Result<int, Seq<char>> {
    match last_where(cs.len() as int, concept_with_id(cs, concept_id)) {
        None => Err(sample_concept_missing(concept_id)),
        Some(c) => match last_where(ms.len() as int, material_of_workspace(ms, cs[c].workspace_id@)) {
            None => Err(sample_material_missing(concept_id)),
            Some(m) => Ok(m),
        },
    }
}

fn last_concept(concepts: &Vec<Concept>, concept_id: &str) -> (r: Option<usize>)
    ensures
        r is None <==> last_where(concepts.len() as int, concept_with_id(concepts@, concept_id@)) is None,
        r matches Some(k) ==> k < concepts.len() && last_where(concepts.len() as int, concept_with_id(concepts@, concept_id@)) == Some(k as int),
{
    let ghost p = concept_with_id(concepts@, concept_id@);
    let mut i: usize = concepts.len();
    while i > 0
        invariant
            i <= concepts.len(),
            p == concept_with_id(concepts@, concept_id@),
            forall|j: int| i <= j < concepts.len() ==> !#[trigger] p(j),
        decreases i,
    {
        if str_eq(concepts[i - 1].id.as_str(), concept_id) {
            proof {
                lemma_last_where(concepts.len() as int, p, i - 1);
            }
            return Some(i - 1);
        }
        i -= 1;
    }
    proof {
        lemma_last_where_none(concepts.len() as int, p);
    }
    None
}

fn last_material(materials: &Vec<Material>, workspace_id: &str) -> (r: Option<usize>)
    ensures
        r is None <==> last_where(materials.len() as int, material_of_workspace(materials@, workspace_id@)) is None,
        r matches Some(k) ==> k < materials.len() && last_where(materials.len() as int, material_of_workspace(materials@, workspace_id@)) == Some(k as int),
{
    let ghost p = material_of_workspace(materials@, workspace_id@);
    let mut i: usize = materials.len();
    while i > 0
        invariant
            i <= materials.len(),
            p == material_of_workspace(materials@, workspace_id@),
            forall|j: int| i <= j < materials.len() ==> !#[trigger] p(j),
        decreases i,
    {
        if str_eq(materials[i - 1].workspace_id.as_str(), workspace_id) {
            proof {
                lemma_last_where(materials.len() as int, p, i - 1);
            }
            return Some(i - 1);
        }
        i -= 1;
    }
    proof {
        lemma_last_where_none(materials.len() as int, p);
    }
    None
}

/// The position of the material that a result for `concept_id` belongs to.
pub fn material_for_result(concepts: &Vec<Concept>, materials: &Vec<Material>, concept_id: &str) -> (r: Result<
    usize,
    String,
>)
    ensures
        match material_for_spec(concepts@, materials@, concept_id@) {
            Ok(m) => r == Ok::<usize, String>(m as usize),
            Err(e) => r matches Err(x) && x@ == e,
        },
{
    proof {
        reveal_strlit("Sample concept not found: ");
        reveal_strlit("Sample material not found for concept: ");
    }
    match last_concept(concepts, concept_id) {
        None => Err(message("Sample concept not found: ", concept_id)),
        Some(c) => match last_material(materials, concepts[c].workspace_id.as_str()) {
            None => Err(message("Sample material not found for concept: ", concept_id)),
            Some(m) => Ok(m),
        },
    }
}

} // verus!
