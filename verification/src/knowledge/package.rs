//! A package's `package.toml` and `sources.toml`, and the assembly of a
//! whole validated package.
use vstd::prelude::*;

use crate::modules::identifier::valid_identifier;
use crate::text::{first_where, lemma_first_where, lemma_first_where_none, trim, trim_string};
use crate::version::{semver_valid, Version};

use super::error::KnowledgeError;
use super::identifier::{KnowledgePackageId, SourceId};
use super::raw::{RawKnowledgePackage, RawSource, RawSourcesFile};
use super::relationships::{relationships_ok, validate_relationships};
use super::types::{KnowledgePackage, Source};
use super::validate::{reference_error_is, references_spec, validate_references, DiscoveredEntities};

verus! {

/// The only schema version this library reads.
pub const SUPPORTED_SCHEMA_VERSION: u32 = 1;

/// A package's identity, from `package.toml`.
pub struct PackageIdentity {
    pub id: KnowledgePackageId,
    pub schema_version: u32,
    pub version: Version,
    pub title: String,
    pub description: String,
}

pub open spec fn empty_field(e: KnowledgeError, field: Seq<char>) -> bool {
    e matches KnowledgeError::EmptyField { path, field: f } && path@ == "package.toml"@ && f@ == field
}

/// What reading `package.toml` gives: schema version 1, an identifier, a
/// semantic version, a title and a description that are not blank.
pub open spec fn identity_outcome(raw: RawKnowledgePackage, r: Result<PackageIdentity, KnowledgeError>) -> bool {
    if raw.schema_version != SUPPORTED_SCHEMA_VERSION {
        r matches Err(KnowledgeError::UnsupportedSchemaVersion { found }) && found == raw.schema_version
    } else if !valid_identifier(raw.id@) {
        r matches Err(KnowledgeError::InvalidIdentifier { value }) && value@ == raw.id@
    } else if !semver_valid(raw.version@) {
        r matches Err(KnowledgeError::MalformedVersion { field, value }) && field@ == "version"@ && value@ == raw.version@
    } else if trim(raw.title@).len() == 0 {
        r matches Err(e) && empty_field(e, "title"@)
    } else if trim(raw.description@).len() == 0 {
        r matches Err(e) && empty_field(e, "description"@)
    } else {
        r matches Ok(p) && p.id@ == raw.id@ && p.schema_version == raw.schema_version && p.version@ == raw.version@
            && p.title@ == raw.title@ && p.description@ == raw.description@
    }
}

/// Validates the decoded `package.toml`.
pub fn package_identity(raw: RawKnowledgePackage) -> (r: Result<PackageIdentity, KnowledgeError>)
    ensures
        identity_outcome(raw, r),
{
    proof {
        reveal_strlit("package.toml");
        reveal_strlit("version");
        reveal_strlit("title");
        reveal_strlit("description");
    }
    if raw.schema_version != SUPPORTED_SCHEMA_VERSION {
        return Err(KnowledgeError::UnsupportedSchemaVersion { found: raw.schema_version });
    }
    let id = KnowledgePackageId::new(raw.id.as_str())?;
    let version = match Version::parse(raw.version.as_str()) {
        Some(v) => v,
        None => {
            return Err(KnowledgeError::MalformedVersion { field: "version", value: raw.version });
        },
    };
    if trim_string(raw.title.as_str()).as_str().is_empty() {
        return Err(KnowledgeError::EmptyField { path: "package.toml".to_owned(), field: "title" });
    }
    if trim_string(raw.description.as_str()).as_str().is_empty() {
        return Err(KnowledgeError::EmptyField { path: "package.toml".to_owned(), field: "description" });
    }
    Ok(PackageIdentity {
        id,
        schema_version: raw.schema_version,
        version,
        title: raw.title,
        description: raw.description,
    })
}

pub open spec fn source_bad(raws: Seq<RawSource>, i: int) -> bool {
    !valid_identifier(raws[i].id@) || exists|j: int| 0 <= j < i && #[trigger] raws[j].id@ == raws[i].id@
}

/// What reading `sources.toml` gives: every id an identifier, none twice.
pub open spec fn sources_outcome(raws: Seq<RawSource>, r: Result<Vec<Source>, KnowledgeError>) -> bool {
    match first_where(raws.len() as int, |i: int| source_bad(raws, i)) {
        Some(i) => if !valid_identifier(raws[i].id@) {
            r matches Err(KnowledgeError::InvalidIdentifier { value }) && value@ == raws[i].id@
        } else {
            r matches Err(KnowledgeError::DuplicateSourceId { id }) && id@ == raws[i].id@
        },
        None => r matches Ok(v) && v.len() == raws.len() && forall|i: int|
            0 <= i < raws.len() ==> #[trigger] source_matches(v@[i], raws[i]),
    }
}

/// `s` holds what `raw` declares.
pub open spec fn source_matches(s: Source, raw: RawSource) -> bool {
    s.id@ == raw.id@ && s.title == raw.title && s.authors == raw.authors && s.edition == raw.edition && s.license
        == raw.license
}

/// Validates the decoded `sources.toml`.
#[verifier::loop_isolation(false)]
pub fn sources_from_raw(raw: RawSourcesFile) -> (r: Result<Vec<Source>, KnowledgeError>)
    ensures
        sources_outcome(raw.sources@, r),
{
    let ghost raws = raw.sources@;
    let ghost bad = |i: int| source_bad(raws, i);
    let mut rest = raw.sources;
    let _n = rest.len();
    let mut out: Vec<Source> = Vec::new();
    let mut i: usize = 0;
    while rest.len() > 0
        invariant
            bad == (|i: int| source_bad(raws, i)),
            raws.len() <= usize::MAX,
            i + rest.len() == raws.len(),
            rest@ == raws.skip(i as int),
            out.len() == i,
            forall|l: int| 0 <= l < i ==> !#[trigger] bad(l),
            forall|l: int| 0 <= l < i ==> #[trigger] source_matches(out@[l], raws[l]),
        decreases rest.len(),
    {
        let ghost out0 = out@;
        let s = rest.remove(0);
        assert(s == raws[i as int]);
        assert(rest@ =~= raws.skip(i + 1));
        let id = match SourceId::new(s.id.as_str()) {
            Ok(id) => id,
            Err(e) => {
                proof {
                    assert(bad(i as int));
                    lemma_first_where(raws.len() as int, bad, i as int);
                }
                return Err(e);
            },
        };
        let mut j: usize = 0;
        while j < out.len()
            invariant
                j <= out.len(),
                out.len() == i,
                forall|l: int| 0 <= l < j ==> raws[l].id@ != raws[i as int].id@,
            decreases out.len() - j,
        {
            assert(source_matches(out@[j as int], raws[j as int]));
            if out[j].id.same(&id) {
                proof {
                    assert(raws[j as int].id@ == raws[i as int].id@);
                    assert(bad(i as int));
                    lemma_first_where(raws.len() as int, bad, i as int);
                }
                return Err(KnowledgeError::DuplicateSourceId { id: id.as_str().to_owned() });
            }
            j += 1;
        }
        assert(!bad(i as int));
        let ghost before = out@;
        let ghost sv = s;
        let src = Source { id, title: s.title, authors: s.authors, edition: s.edition, license: s.license };
        assert(src.id@ == raws[i as int].id@ && src.title == raws[i as int].title && src.authors == raws[i as int].authors
            && src.edition == raws[i as int].edition && src.license == raws[i as int].license);
        out.push(src);
        assert(out@ == before.push(src));
        assert forall|l: int| 0 <= l < i + 1 implies #[trigger] source_matches(out@[l], raws[l]) by {
            if l < i {
                assert(out@[l] == out0[l]);
            }
        }
        i += 1;
    }
    proof {
        lemma_first_where_none(raws.len() as int, bad);
    }
    Ok(out)
}

pub open spec fn unit_result(r: Result<KnowledgePackage, KnowledgeError>) -> Result<(), KnowledgeError> {
    match r {
        Ok(_) => Ok(()),
        Err(e) => Err(e),
    }
}

/// Assembles a package from its identity, sources and entities once the
/// references and the relationships among concepts are valid.
pub fn assemble_package(identity: PackageIdentity, sources: Vec<Source>, entities: DiscoveredEntities) -> (r: Result<
    KnowledgePackage,
    KnowledgeError,
>)
    ensures
        match references_spec(
            entities.concepts@,
            entities.objectives@,
            entities.examples@,
            entities.problem_families@,
            sources@,
        ) {
            Some(f) => r matches Err(e) && reference_error_is(e, f),
            None => relationships_ok(entities.concepts@, unit_result(r)) && (r matches Ok(p) ==> p.id@ == identity.id@
                && p.schema_version == identity.schema_version && p.version@ == identity.version@ && p.title
                == identity.title && p.description == identity.description && p.concepts == entities.concepts
                && p.objectives == entities.objectives && p.examples == entities.examples && p.problem_families
                == entities.problem_families && p.sources == sources),
        },
{
    validate_references(&entities, &sources)?;
    match validate_relationships(&entities.concepts) {
        Ok(()) => {},
        Err(e) => {
            return Err(e);
        },
    }
    Ok(KnowledgePackage {
        id: identity.id,
        schema_version: identity.schema_version,
        version: identity.version,
        title: identity.title,
        description: identity.description,
        concepts: entities.concepts,
        objectives: entities.objectives,
        examples: entities.examples,
        problem_families: entities.problem_families,
        sources,
    })
}

} // verus!
