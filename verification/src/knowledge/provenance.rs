//! Provenance references: which source an entity comes from, where in it,
//! and whether the entity reproduces or derives from it.
use vstd::prelude::*;

use crate::modules::identifier::valid_identifier;
use crate::text::{str_eq, first_where, lemma_first_where, lemma_first_where_none};

use super::error::KnowledgeError;
use super::identifier::SourceId;
use super::raw::{RawProvenanceRef, RawSourceLocator};
use super::types::{ProvenanceKind, ProvenanceRef, SourceLocator};

verus! {

pub open spec fn opt_v(o: Option<String>) -> Option<Seq<char>> {
    match o {
        Some(s) => Some(s@),
        None => None,
    }
}

pub type LocatorV = (Option<Seq<char>>, Option<Seq<char>>, Option<Seq<char>>);

/// A provenance reference: source id, locator, kind.
pub type RefV = (Seq<char>, Option<LocatorV>, ProvenanceKind);

pub open spec fn raw_locator_v(l: RawSourceLocator) -> LocatorV {
    (opt_v(l.section), opt_v(l.pages), opt_v(l.label))
}

pub open spec fn locator_v(l: SourceLocator) -> LocatorV {
    (opt_v(l.section), opt_v(l.pages), opt_v(l.label))
}

pub open spec fn ref_v(p: ProvenanceRef) -> RefV {
    (
        p.source_id@,
        match p.locator {
            Some(l) => Some(locator_v(l)),
            None => None,
        },
        p.kind,
    )
}

pub open spec fn kind_of(k: Seq<char>) -> Option<ProvenanceKind> {
    if k == "direct"@ {
        Some(ProvenanceKind::Direct)
    } else if k == "derived"@ {
        Some(ProvenanceKind::Derived)
    } else {
        None
    }
}

/// Why one reference is rejected.
pub enum RefFailure {
    InvalidSource(Seq<char>),
    UnknownKind(Seq<char>),
    EmptyLocator,
}

/// One reference: its source id must be an identifier, its kind `direct` or
/// `derived`, and a locator, when given, must name something.
pub open spec fn convert_one_spec(raw: RawProvenanceRef) -> Result<RefV, RefFailure> {
    if !valid_identifier(raw.source_id@) {
        Err(RefFailure::InvalidSource(raw.source_id@))
    } else if kind_of(raw.kind@) is None {
        Err(RefFailure::UnknownKind(raw.kind@))
    } else {
        match raw.locator {
            Some(l) => if l.section is None && l.pages is None && l.label is None {
                Err(RefFailure::EmptyLocator)
            } else {
                Ok((raw.source_id@, Some(raw_locator_v(l)), kind_of(raw.kind@)->0))
            },
            None => Ok((raw.source_id@, None, kind_of(raw.kind@)->0)),
        }
    }
}

pub open spec fn ref_failure_is(e: KnowledgeError, entity_id: Seq<char>, f: RefFailure) -> bool {
    match f {
        RefFailure::InvalidSource(v) => e matches KnowledgeError::InvalidIdentifier { value } && value@ == v,
        RefFailure::UnknownKind(v) => e matches KnowledgeError::UnknownProvenanceKind { entity_id: x, value }
            && x@ == entity_id && value@ == v,
        RefFailure::EmptyLocator => e matches KnowledgeError::EmptySourceLocator { entity_id: x } && x@ == entity_id,
    }
}

fn clone_opt(o: &Option<String>) -> (r: Option<String>)
    ensures
        opt_v(r) == opt_v(*o),
{
    match o {
        Some(s) => Some(s.clone()),
        None => None,
    }
}

fn opt_eq(a: &Option<String>, b: &Option<String>) -> (r: bool)
    ensures
        r == (opt_v(*a) == opt_v(*b)),
{
    match (a, b) {
        (Some(x), Some(y)) => str_eq(x.as_str(), y.as_str()),
        (None, None) => true,
        _ => false,
    }
}

/// Validates one raw provenance reference of entity `entity_id`.
pub fn convert_one(entity_id: &str, raw: RawProvenanceRef) -> (r: Result<ProvenanceRef, KnowledgeError>)
    ensures
        match (r, convert_one_spec(raw)) {
            (Ok(p), Ok(v)) => ref_v(p) == v,
            (Err(e), Err(f)) => ref_failure_is(e, entity_id@, f),
            _ => false,
        },
{
    proof {
        reveal_strlit("direct");
        reveal_strlit("derived");
    }
    let source_id = match SourceId::new(raw.source_id.as_str()) {
        Ok(id) => id,
        Err(e) => {
            return Err(e);
        },
    };
    let kind = if str_eq(raw.kind.as_str(), "direct") {
        ProvenanceKind::Direct
    } else if str_eq(raw.kind.as_str(), "derived") {
        ProvenanceKind::Derived
    } else {
        return Err(KnowledgeError::UnknownProvenanceKind { entity_id: entity_id.to_owned(), value: raw.kind });
    };
    let locator = match raw.locator {
        None => None,
        Some(l) => {
            if l.section.is_none() && l.pages.is_none() && l.label.is_none() {
                return Err(KnowledgeError::EmptySourceLocator { entity_id: entity_id.to_owned() });
            }
            Some(SourceLocator { section: l.section, pages: l.pages, label: l.label })
        },
    };
    Ok(ProvenanceRef { source_id, locator, kind })
}

/// Why a list of references is rejected.
pub enum ProvenanceFailure {
    Missing,
    One(RefFailure),
    Duplicate(Seq<char>),
}

pub open spec fn dup_after(refs: Seq<RefV>, i: int) -> bool {
    exists|j: int| i < j < refs.len() && refs[j] == refs[i]
}

/// An entity's references: at least one; each valid (the first invalid one
/// decides); no reference repeated exactly (the first repeated one decides).
pub open spec fn provenance_spec(raws: Seq<RawProvenanceRef>) -> Result<Seq<RefV>, ProvenanceFailure> {
    if raws.len() == 0 {
        Err(ProvenanceFailure::Missing)
    } else {
        match first_where(raws.len() as int, |i: int| convert_one_spec(raws[i]) is Err) {
            Some(i) => Err(ProvenanceFailure::One(convert_one_spec(raws[i])->Err_0)),
            None => {
                let refs = Seq::new(raws.len(), |i: int| convert_one_spec(raws[i])->Ok_0);
                match first_where(refs.len() as int, |i: int| dup_after(refs, i)) {
                    Some(i) => Err(ProvenanceFailure::Duplicate(refs[i].0)),
                    None => Ok(refs),
                }
            },
        }
    }
}

pub open spec fn provenance_error_is(e: KnowledgeError, entity_id: Seq<char>, f: ProvenanceFailure) -> bool {
    match f {
        ProvenanceFailure::Missing => e matches KnowledgeError::MissingProvenance { entity_id: x } && x@ == entity_id,
        ProvenanceFailure::One(g) => ref_failure_is(e, entity_id, g),
        ProvenanceFailure::Duplicate(s) => e matches KnowledgeError::DuplicateProvenanceRef { entity_id: x, source_id }
            && x@ == entity_id && source_id@ == s,
    }
}

pub open spec fn provenance_outcome(
    entity_id: Seq<char>,
    raws: Seq<RawProvenanceRef>,
    r: Result<Vec<ProvenanceRef>, KnowledgeError>,
) -> bool {
    match (r, provenance_spec(raws)) {
        (Ok(v), Ok(refs)) => v@.map_values(|p: ProvenanceRef| ref_v(p)) == refs,
        (Err(e), Err(f)) => provenance_error_is(e, entity_id, f),
        _ => false,
    }
}

fn same_ref(a: &ProvenanceRef, b: &ProvenanceRef) -> (r: bool)
    ensures
        r == (ref_v(*a) == ref_v(*b)),
{
    if !a.source_id.same(&b.source_id) || a.kind != b.kind {
        return false;
    }
    match (&a.locator, &b.locator) {
        (None, None) => true,
        (Some(x), Some(y)) => opt_eq(&x.section, &y.section) && opt_eq(&x.pages, &y.pages) && opt_eq(&x.label, &y.label),
        _ => false,
    }
}

/// Validates the raw provenance references of entity `entity_id`.
#[verifier::loop_isolation(false)]
pub fn convert_provenance_refs(entity_id: &str, raw_refs: Vec<RawProvenanceRef>) -> (r: Result<
    Vec<ProvenanceRef>,
    KnowledgeError,
>)
    ensures
        provenance_outcome(entity_id@, raw_refs@, r),
{
    let ghost raws = raw_refs@;
    if raw_refs.len() == 0 {
        return Err(KnowledgeError::MissingProvenance { entity_id: entity_id.to_owned() });
    }
    let ghost bad = |i: int| convert_one_spec(raws[i]) is Err;
    let mut rest = raw_refs;
    let mut refs: Vec<ProvenanceRef> = Vec::new();
    let mut i: usize = 0;
    while rest.len() > 0
        invariant
            bad == (|i: int| convert_one_spec(raws[i]) is Err),
            raws.len() <= usize::MAX,
            i + rest.len() == raws.len(),
            rest@ == raws.skip(i as int),
            refs.len() == i,
            forall|l: int| 0 <= l < i ==> !#[trigger] bad(l),
            forall|l: int| 0 <= l < i ==> #[trigger] ref_v(refs@[l]) == convert_one_spec(raws[l])->Ok_0,
        decreases rest.len(),
    {
        let raw = rest.remove(0);
        assert(raw == raws[i as int]);
        assert(rest@ =~= raws.skip(i + 1));
        match convert_one(entity_id, raw) {
            Ok(p) => {
                refs.push(p);
            },
            Err(e) => {
                proof {
                    assert(bad(i as int));
                    lemma_first_where(raws.len() as int, bad, i as int);
                }
                return Err(e);
            },
        }
        i += 1;
    }
    proof {
        lemma_first_where_none(raws.len() as int, bad);
    }
    let ghost rv = Seq::new(raws.len(), |l: int| convert_one_spec(raws[l])->Ok_0);
    assert(refs@.map_values(|p: ProvenanceRef| ref_v(p)) =~= rv);
    let ghost dp = |l: int| dup_after(rv, l);
    let mut i: usize = 0;
    while i < refs.len()
        invariant
            rv == refs@.map_values(|p: ProvenanceRef| ref_v(p)),
            dp == (|l: int| dup_after(rv, l)),
            i <= refs.len(),
            forall|l: int| 0 <= l < i ==> !#[trigger] dp(l),
        decreases refs.len() - i,
    {
        let mut j: usize = i + 1;
        while j < refs.len()
            invariant
                rv == refs@.map_values(|p: ProvenanceRef| ref_v(p)),
                i < refs.len(),
                i + 1 <= j <= refs.len(),
                forall|l: int| i < l < j ==> rv[l] != rv[i as int],
            decreases refs.len() - j,
        {
            if same_ref(&refs[i], &refs[j]) {
                proof {
                    assert(rv[j as int] == rv[i as int]);
                    assert(dp(i as int));
                    lemma_first_where(rv.len() as int, dp, i as int);
                }
                return Err(
                    KnowledgeError::DuplicateProvenanceRef {
                        entity_id: entity_id.to_owned(),
                        source_id: refs[i].source_id.as_str().to_owned(),
                    },
                );
            }
            j += 1;
        }
        assert(!dp(i as int));
        i += 1;
    }
    proof {
        lemma_first_where_none(rv.len() as int, dp);
    }
    Ok(refs)
}

} // verus!
