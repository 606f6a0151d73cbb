//! Identifiers of knowledge entities. Each kind of entity has its own type;
//! all of them share the dotted lowercase syntax of module identifiers.
use vstd::prelude::*;

use crate::modules::identifier::{valid_identifier, validate_identifier};
use crate::text::{first_where, lemma_first_where, lemma_first_where_none};

use super::error::KnowledgeError;

verus! {

#[derive(Debug, PartialEq, Eq, Hash)]
pub struct KnowledgePackageId(String);

impl View for KnowledgePackageId {
    type V = Seq<char>;

    closed spec fn view(&self) -> Seq<char> {
        self.0@
    }
}

impl Clone for KnowledgePackageId {
    fn clone(&self) -> (r: Self)
        ensures
            r@ == self@,
    {
        KnowledgePackageId(self.0.clone())
    }
}

impl KnowledgePackageId {
    /// Accepts `value` exactly when it is a valid identifier.
    pub fn new(value: &str) -> (r: Result<Self, KnowledgeError>)
        ensures
            r is Ok <==> valid_identifier(value@),
            r matches Ok(id) ==> id@ == value@,
            r matches Err(e) ==> (e matches KnowledgeError::InvalidIdentifier { value: v } && v@ == value@),
    {
        match validate_identifier(value) {
            Ok(()) => Ok(KnowledgePackageId(value.to_owned())),
            Err(_) => Err(KnowledgeError::InvalidIdentifier { value: value.to_owned() }),
        }
    }

    pub fn as_str(&self) -> (r: &str)
        ensures
            r@ == self@,
    {
        self.0.as_str()
    }

    /// Whether both identifiers hold the same text.
    pub fn same(&self, other: &KnowledgePackageId) -> (r: bool)
        ensures
            r == (self@ == other@),
    {
        self.0 == other.0
    }
}

#[derive(Debug, PartialEq, Eq, Hash)]
pub struct ConceptId(String);

impl View for ConceptId {
    type V = Seq<char>;

    closed spec fn view(&self) -> Seq<char> {
        self.0@
    }
}

impl Clone for ConceptId {
    fn clone(&self) -> (r: Self)
        ensures
            r@ == self@,
    {
        ConceptId(self.0.clone())
    }
}

impl ConceptId {
    /// Accepts `value` exactly when it is a valid identifier.
    pub fn new(value: &str) -> (r: Result<Self, KnowledgeError>)
        ensures
            r is Ok <==> valid_identifier(value@),
            r matches Ok(id) ==> id@ == value@,
            r matches Err(e) ==> (e matches KnowledgeError::InvalidIdentifier { value: v } && v@ == value@),
    {
        match validate_identifier(value) {
            Ok(()) => Ok(ConceptId(value.to_owned())),
            Err(_) => Err(KnowledgeError::InvalidIdentifier { value: value.to_owned() }),
        }
    }

    pub fn as_str(&self) -> (r: &str)
        ensures
            r@ == self@,
    {
        self.0.as_str()
    }

    /// Whether both identifiers hold the same text.
    pub fn same(&self, other: &ConceptId) -> (r: bool)
        ensures
            r == (self@ == other@),
    {
        self.0 == other.0
    }
}

#[derive(Debug, PartialEq, Eq, Hash)]
pub struct ObjectiveId(String);

impl View for ObjectiveId {
    type V = Seq<char>;

    closed spec fn view(&self) -> Seq<char> {
        self.0@
    }
}

impl Clone for ObjectiveId {
    fn clone(&self) -> (r: Self)
        ensures
            r@ == self@,
    {
        ObjectiveId(self.0.clone())
    }
}

impl ObjectiveId {
    /// Accepts `value` exactly when it is a valid identifier.
    pub fn new(value: &str) -> (r: Result<Self, KnowledgeError>)
        ensures
            r is Ok <==> valid_identifier(value@),
            r matches Ok(id) ==> id@ == value@,
            r matches Err(e) ==> (e matches KnowledgeError::InvalidIdentifier { value: v } && v@ == value@),
    {
        match validate_identifier(value) {
            Ok(()) => Ok(ObjectiveId(value.to_owned())),
            Err(_) => Err(KnowledgeError::InvalidIdentifier { value: value.to_owned() }),
        }
    }

    pub fn as_str(&self) -> (r: &str)
        ensures
            r@ == self@,
    {
        self.0.as_str()
    }

    /// Whether both identifiers hold the same text.
    pub fn same(&self, other: &ObjectiveId) -> (r: bool)
        ensures
            r == (self@ == other@),
    {
        self.0 == other.0
    }
}

#[derive(Debug, PartialEq, Eq, Hash)]
pub struct ExampleId(String);

impl View for ExampleId {
    type V = Seq<char>;

    closed spec fn view(&self) -> Seq<char> {
        self.0@
    }
}

impl Clone for ExampleId {
    fn clone(&self) -> (r: Self)
        ensures
            r@ == self@,
    {
        ExampleId(self.0.clone())
    }
}

impl ExampleId {
    /// Accepts `value` exactly when it is a valid identifier.
    pub fn new(value: &str) -> (r: Result<Self, KnowledgeError>)
        ensures
            r is Ok <==> valid_identifier(value@),
            r matches Ok(id) ==> id@ == value@,
            r matches Err(e) ==> (e matches KnowledgeError::InvalidIdentifier { value: v } && v@ == value@),
    {
        match validate_identifier(value) {
            Ok(()) => Ok(ExampleId(value.to_owned())),
            Err(_) => Err(KnowledgeError::InvalidIdentifier { value: value.to_owned() }),
        }
    }

    pub fn as_str(&self) -> (r: &str)
        ensures
            r@ == self@,
    {
        self.0.as_str()
    }

    /// Whether both identifiers hold the same text.
    pub fn same(&self, other: &ExampleId) -> (r: bool)
        ensures
            r == (self@ == other@),
    {
        self.0 == other.0
    }
}

#[derive(Debug, PartialEq, Eq, Hash)]
pub struct SourceId(String);

impl View for SourceId {
    type V = Seq<char>;

    closed spec fn view(&self) -> Seq<char> {
        self.0@
    }
}

impl Clone for SourceId {
    fn clone(&self) -> (r: Self)
        ensures
            r@ == self@,
    {
        SourceId(self.0.clone())
    }
}

impl SourceId {
    /// Accepts `value` exactly when it is a valid identifier.
    pub fn new(value: &str) -> (r: Result<Self, KnowledgeError>)
        ensures
            r is Ok <==> valid_identifier(value@),
            r matches Ok(id) ==> id@ == value@,
            r matches Err(e) ==> (e matches KnowledgeError::InvalidIdentifier { value: v } && v@ == value@),
    {
        match validate_identifier(value) {
            Ok(()) => Ok(SourceId(value.to_owned())),
            Err(_) => Err(KnowledgeError::InvalidIdentifier { value: value.to_owned() }),
        }
    }

    pub fn as_str(&self) -> (r: &str)
        ensures
            r@ == self@,
    {
        self.0.as_str()
    }

    /// Whether both identifiers hold the same text.
    pub fn same(&self, other: &SourceId) -> (r: bool)
        ensures
            r == (self@ == other@),
    {
        self.0 == other.0
    }
}

#[derive(Debug, PartialEq, Eq, Hash)]
pub struct ProblemFamilyId(String);

impl View for ProblemFamilyId {
    type V = Seq<char>;

    closed spec fn view(&self) -> Seq<char> {
        self.0@
    }
}

impl Clone for ProblemFamilyId {
    fn clone(&self) -> (r: Self)
        ensures
            r@ == self@,
    {
        ProblemFamilyId(self.0.clone())
    }
}

impl ProblemFamilyId {
    /// Accepts `value` exactly when it is a valid identifier.
    pub fn new(value: &str) -> (r: Result<Self, KnowledgeError>)
        ensures
            r is Ok <==> valid_identifier(value@),
            r matches Ok(id) ==> id@ == value@,
            r matches Err(e) ==> (e matches KnowledgeError::InvalidIdentifier { value: v } && v@ == value@),
    {
        match validate_identifier(value) {
            Ok(()) => Ok(ProblemFamilyId(value.to_owned())),
            Err(_) => Err(KnowledgeError::InvalidIdentifier { value: value.to_owned() }),
        }
    }

    pub fn as_str(&self) -> (r: &str)
        ensures
            r@ == self@,
    {
        self.0.as_str()
    }

    /// Whether both identifiers hold the same text.
    pub fn same(&self, other: &ProblemFamilyId) -> (r: bool)
        ensures
            r == (self@ == other@),
    {
        self.0 == other.0
    }
}

#[derive(Debug, PartialEq, Eq, Hash)]
pub struct GeneratorId(String);

impl View for GeneratorId {
    type V = Seq<char>;

    closed spec fn view(&self) -> Seq<char> {
        self.0@
    }
}

impl Clone for GeneratorId {
    fn clone(&self) -> (r: Self)
        ensures
            r@ == self@,
    {
        GeneratorId(self.0.clone())
    }
}

impl GeneratorId {
    /// Accepts `value` exactly when it is a valid identifier.
    pub fn new(value: &str) -> (r: Result<Self, KnowledgeError>)
        ensures
            r is Ok <==> valid_identifier(value@),
            r matches Ok(id) ==> id@ == value@,
            r matches Err(e) ==> (e matches KnowledgeError::InvalidIdentifier { value: v } && v@ == value@),
    {
        match validate_identifier(value) {
            Ok(()) => Ok(GeneratorId(value.to_owned())),
            Err(_) => Err(KnowledgeError::InvalidIdentifier { value: value.to_owned() }),
        }
    }

    pub fn as_str(&self) -> (r: &str)
        ensures
            r@ == self@,
    {
        self.0.as_str()
    }

    /// Whether both identifiers hold the same text.
    pub fn same(&self, other: &GeneratorId) -> (r: bool)
        ensures
            r == (self@ == other@),
    {
        self.0 == other.0
    }
}

/// The first value that is not a valid identifier.
pub open spec fn first_invalid(values: Seq<Seq<char>>) -> Option<int> {
    first_where(values.len() as int, |i: int| !valid_identifier(values[i]))
}

/// Converts `values` to identifiers; the first invalid one is reported.
pub fn concept_ids(values: &Vec<String>) -> (r: Result<Vec<ConceptId>, KnowledgeError>)
    ensures
        match first_invalid(values@.map_values(|s: String| s@)) {
            Some(i) => r matches Err(KnowledgeError::InvalidIdentifier { value }) && value@ == values@[i]@,
            None => r matches Ok(ids) && ids@.map_values(|x: ConceptId| x@) == values@.map_values(|s: String| s@),
        },
{
    let ghost vs = values@.map_values(|s: String| s@);
    let ghost bad = |i: int| !valid_identifier(vs[i]);
    let mut ids: Vec<ConceptId> = Vec::new();
    let mut i: usize = 0;
    while i < values.len()
        invariant
            vs == values@.map_values(|s: String| s@),
            bad == (|i: int| !valid_identifier(vs[i])),
            i <= values.len(),
            forall|l: int| 0 <= l < i ==> !#[trigger] bad(l),
            ids@.map_values(|x: ConceptId| x@) == vs.take(i as int),
        decreases values.len() - i,
    {
        assert(vs[i as int] == values@[i as int]@);
        match ConceptId::new(values[i].as_str()) {
            Ok(id) => {
                let ghost before = ids@;
                ids.push(id);
                assert(ids@.map_values(|x: ConceptId| x@) =~= before.map_values(|x: ConceptId| x@).push(vs[i as int]));
                assert(vs.take(i + 1) =~= vs.take(i as int).push(vs[i as int]));
            },
            Err(e) => {
                proof {
                    assert(bad(i as int));
                    lemma_first_where(vs.len() as int, bad, i as int);
                }
                return Err(e);
            },
        }
        i += 1;
    }
    proof {
        lemma_first_where_none(vs.len() as int, bad);
        assert(vs.take(i as int) =~= vs);
    }
    Ok(ids)
}

/// Converts `values` to identifiers; the first invalid one is reported.
pub fn objective_ids(values: &Vec<String>) -> (r: Result<Vec<ObjectiveId>, KnowledgeError>)
    ensures
        match first_invalid(values@.map_values(|s: String| s@)) {
            Some(i) => r matches Err(KnowledgeError::InvalidIdentifier { value }) && value@ == values@[i]@,
            None => r matches Ok(ids) && ids@.map_values(|x: ObjectiveId| x@) == values@.map_values(|s: String| s@),
        },
{
    let ghost vs = values@.map_values(|s: String| s@);
    let ghost bad = |i: int| !valid_identifier(vs[i]);
    let mut ids: Vec<ObjectiveId> = Vec::new();
    let mut i: usize = 0;
    while i < values.len()
        invariant
            vs == values@.map_values(|s: String| s@),
            bad == (|i: int| !valid_identifier(vs[i])),
            i <= values.len(),
            forall|l: int| 0 <= l < i ==> !#[trigger] bad(l),
            ids@.map_values(|x: ObjectiveId| x@) == vs.take(i as int),
        decreases values.len() - i,
    {
        assert(vs[i as int] == values@[i as int]@);
        match ObjectiveId::new(values[i].as_str()) {
            Ok(id) => {
                let ghost before = ids@;
                ids.push(id);
                assert(ids@.map_values(|x: ObjectiveId| x@) =~= before.map_values(|x: ObjectiveId| x@).push(vs[i as int]));
                assert(vs.take(i + 1) =~= vs.take(i as int).push(vs[i as int]));
            },
            Err(e) => {
                proof {
                    assert(bad(i as int));
                    lemma_first_where(vs.len() as int, bad, i as int);
                }
                return Err(e);
            },
        }
        i += 1;
    }
    proof {
        lemma_first_where_none(vs.len() as int, bad);
        assert(vs.take(i as int) =~= vs);
    }
    Ok(ids)
}

} // verus!
