//! Validation of module manifests.
use vstd::prelude::*;

use crate::text::{append_str, decimal, decimal_string, join, join_strings, string_views};

use crate::version::{semver_gt, semver_valid, Version};

use super::identifier::{valid_identifier, CapabilityId, ModuleId};

verus! {

/// The manifest as read from TOML, before any validation.
#[derive(Debug, Clone)]
pub struct RawModuleManifest {
    pub manifest_version: u32,
    pub id: String,
    pub name: String,
    pub version: String,
    pub minimum_axiom_version: String,
    pub offline: DecodedOffline,
    pub provides: Vec<RawCapabilityDescriptor>,
    pub requirements: Vec<RawCapabilityRequirement>,
}

/// The `offline` text as the TOML reader decodes it: the level it names, or
/// the reader's message when it names none.
#[derive(Debug, Clone)]
pub enum DecodedOffline {
    Level(OfflineCapability),
    Rejected(String),
}

#[derive(Debug, Clone)]
pub struct RawCapabilityDescriptor {
    pub id: String,
    pub version: u32,
}

#[derive(Debug, Clone)]
pub struct RawCapabilityRequirement {
    pub id: String,
    pub min_version: u32,
}

/// A validated manifest.
#[derive(Debug, Clone, PartialEq)]
pub struct ModuleManifest {
    pub id: ModuleId,
    pub name: String,
    pub version: Version,
    pub minimum_axiom_version: Version,
    pub offline: OfflineCapability,
    pub provides: Vec<CapabilityDescriptor>,
    pub requirements: Vec<CapabilityRequirement>,
}

#[derive(Debug, Clone, PartialEq)]
pub struct CapabilityDescriptor {
    pub id: CapabilityId,
    pub version: u32,
}

#[derive(Debug, Clone, PartialEq)]
pub struct CapabilityRequirement {
    pub id: CapabilityId,
    pub min_version: u32,
}

#[derive(Debug, Clone, Copy, PartialEq, Eq)]
pub enum OfflineCapability {
    Full,
    Enhanced,
    Required,
}

#[derive(Debug)]
pub enum ManifestError {
    UnsupportedManifestVersion { found: u32, supported: Vec<u32> },
    MissingModuleId,
    MalformedVersion { field: &'static str, value: String },
    InvalidIdentifier { value: String },
    DuplicateCapability { module_id: String, capability_id: String },
    IncompatibleAxiomVersion { required: Version, running: Version },
    /// A TOML document (or value) that does not have the manifest's shape; the
    /// text is the TOML decoder's message.
    TomlSyntax(String),
}

/// The running Axiom version that manifests are checked against.
pub const AXIOM_VERSION: &'static str = "0.1.0";

/// The running Axiom version, when its text is a semantic version.
pub fn axiom_version() -> (r: Option<Version>)
    ensures
        r.is_some() == semver_valid(AXIOM_VERSION@),
        r matches Some(v) ==> v@ == AXIOM_VERSION@ && v.is_valid(),
{
    Version::parse(AXIOM_VERSION)
}

/// What a manifest's fields hold, as plain sequences.
pub struct RawManifestView {
    pub manifest_version: u32,
    pub id: Seq<char>,
    pub name: Seq<char>,
    pub version: Seq<char>,
    pub minimum_axiom_version: Seq<char>,
    pub offline: Result<OfflineCapability, Seq<char>>,
    pub provides: Seq<(Seq<char>, u32)>,
    pub requirements: Seq<(Seq<char>, u32)>,
}

pub struct ManifestView {
    pub id: Seq<char>,
    pub name: Seq<char>,
    pub version: Seq<char>,
    pub minimum_axiom_version: Seq<char>,
    pub offline: OfflineCapability,
    pub provides: Seq<(Seq<char>, u32)>,
    pub requirements: Seq<(Seq<char>, u32)>,
}

pub enum ManifestErrorView {
    UnsupportedManifestVersion { found: u32, supported: Seq<u32> },
    MissingModuleId,
    MalformedVersion { field: Seq<char>, value: Seq<char> },
    InvalidIdentifier { value: Seq<char> },
    DuplicateCapability { module_id: Seq<char>, capability_id: Seq<char> },
    IncompatibleAxiomVersion { required: Seq<char>, running: Seq<char> },
    TomlSyntax(Seq<char>),
}

impl View for RawModuleManifest {
    type V = RawManifestView;

    open spec fn view(&self) -> RawManifestView {
        RawManifestView {
            manifest_version: self.manifest_version,
            id: self.id@,
            name: self.name@,
            version: self.version@,
            minimum_axiom_version: self.minimum_axiom_version@,
            offline: match self.offline {
                DecodedOffline::Level(o) => Ok(o),
                DecodedOffline::Rejected(m) => Err(m@),
            },
            provides: self.provides@.map_values(|d: RawCapabilityDescriptor| (d.id@, d.version)),
            requirements: self.requirements@.map_values(
                |d: RawCapabilityRequirement| (d.id@, d.min_version),
            ),
        }
    }
}

impl View for ModuleManifest {
    type V = ManifestView;

    open spec fn view(&self) -> ManifestView {
        ManifestView {
            id: self.id@,
            name: self.name@,
            version: self.version@,
            minimum_axiom_version: self.minimum_axiom_version@,
            offline: self.offline,
            provides: self.provides@.map_values(|d: CapabilityDescriptor| (d.id@, d.version)),
            requirements: self.requirements@.map_values(|d: CapabilityRequirement| (d.id@, d.min_version)),
        }
    }
}

impl View for ManifestError {
    type V = ManifestErrorView;

    open spec fn view(&self) -> ManifestErrorView {
        match self {
            ManifestError::UnsupportedManifestVersion { found, supported } =>
                ManifestErrorView::UnsupportedManifestVersion { found: *found, supported: supported@ },
            ManifestError::MissingModuleId => ManifestErrorView::MissingModuleId,
            ManifestError::MalformedVersion { field, value } =>
                ManifestErrorView::MalformedVersion { field: field@, value: value@ },
            ManifestError::InvalidIdentifier { value } =>
                ManifestErrorView::InvalidIdentifier { value: value@ },
            ManifestError::DuplicateCapability { module_id, capability_id } =>
                ManifestErrorView::DuplicateCapability {
                    module_id: module_id@,
                    capability_id: capability_id@,
                },
            ManifestError::IncompatibleAxiomVersion { required, running } =>
                ManifestErrorView::IncompatibleAxiomVersion { required: required@, running: running@ },
            ManifestError::TomlSyntax(message) => ManifestErrorView::TomlSyntax(message@),
        }
    }
}

/// The `i`-th provided capability is invalid or repeats an earlier (id, version) pair.
pub open spec fn provide_bad_at(p: Seq<(Seq<char>, u32)>, i: int) -> bool {
    !valid_identifier(p[i].0) || exists|j: int| 0 <= j < i && p[j] == p[i]
}

/// The first provided capability that is invalid or repeated.
pub open spec fn first_bad_provide(p: Seq<(Seq<char>, u32)>) -> Option<int> {
    if exists|i: int| 0 <= i < p.len() && provide_bad_at(p, i) {
        Some(
            choose|i: int|
                0 <= i < p.len() && provide_bad_at(p, i) && forall|j: int|
                    0 <= j < i ==> !provide_bad_at(p, j),
        )
    } else {
        None
    }
}

/// The first required capability whose identifier is invalid.
pub open spec fn first_bad_require(q: Seq<(Seq<char>, u32)>) -> Option<int> {
    if exists|i: int| 0 <= i < q.len() && !valid_identifier(q[i].0) {
        Some(
            choose|i: int|
                0 <= i < q.len() && !valid_identifier(q[i].0) && forall|j: int|
                    0 <= j < i ==> valid_identifier(q[j].0),
        )
    } else {
        None
    }
}

/// What validating `raw` against the running version `running` gives: the
/// checks run in order, and the first one that fails decides the error.
pub open spec fn validate_spec(raw: RawManifestView, running: Seq<char>) -> Result<
    ManifestView,
    ManifestErrorView,
> {
    if raw.manifest_version != 1 {
        Err(ManifestErrorView::UnsupportedManifestVersion { found: raw.manifest_version, supported: seq![1u32] })
    } else if raw.id.len() == 0 {
        Err(ManifestErrorView::MissingModuleId)
    } else if !valid_identifier(raw.id) {
        Err(ManifestErrorView::InvalidIdentifier { value: raw.id })
    } else if !semver_valid(raw.version) {
        Err(ManifestErrorView::MalformedVersion { field: "version"@, value: raw.version })
    } else if !semver_valid(raw.minimum_axiom_version) {
        Err(
            ManifestErrorView::MalformedVersion {
                field: "minimum_axiom_version"@,
                value: raw.minimum_axiom_version,
            },
        )
    } else if !semver_valid(running) {
        Err(ManifestErrorView::MalformedVersion { field: "axiom_version"@, value: running })
    } else if semver_gt(raw.minimum_axiom_version, running) {
        Err(
            ManifestErrorView::IncompatibleAxiomVersion {
                required: raw.minimum_axiom_version,
                running,
            },
        )
    } else if raw.offline is Err {
        Err(ManifestErrorView::TomlSyntax(raw.offline->Err_0))
    } else if first_bad_provide(raw.provides) is Some {
        let i = first_bad_provide(raw.provides).unwrap();
        if !valid_identifier(raw.provides[i].0) {
            Err(ManifestErrorView::InvalidIdentifier { value: raw.provides[i].0 })
        } else {
            Err(
                ManifestErrorView::DuplicateCapability {
                    module_id: raw.id,
                    capability_id: raw.provides[i].0,
                },
            )
        }
    } else if first_bad_require(raw.requirements) is Some {
        Err(
            ManifestErrorView::InvalidIdentifier {
                value: raw.requirements[first_bad_require(raw.requirements).unwrap()].0,
            },
        )
    } else {
        Ok(
            ManifestView {
                id: raw.id,
                name: raw.name,
                version: raw.version,
                minimum_axiom_version: raw.minimum_axiom_version,
                offline: raw.offline->Ok_0,
                provides: raw.provides,
                requirements: raw.requirements,
            },
        )
    }
}

pub open spec fn result_view(r: Result<ModuleManifest, ManifestError>) -> Result<
    ManifestView,
    ManifestErrorView,
> {
    match r {
        Ok(m) => Ok(m@),
        Err(e) => Err(e@),
    }
}

proof fn lemma_first_bad_provide(p: Seq<(Seq<char>, u32)>, i: int)
    requires
        0 <= i < p.len(),
        provide_bad_at(p, i),
        forall|j: int| 0 <= j < i ==> !provide_bad_at(p, j),
    ensures
        first_bad_provide(p) == Some(i),
{
    let k = first_bad_provide(p).unwrap();
    assert(provide_bad_at(p, k) && forall|j: int| 0 <= j < k ==> !provide_bad_at(p, j));
    if k < i {
        assert(!provide_bad_at(p, k));
    }
    if i < k {
        assert(!provide_bad_at(p, i));
    }
}

proof fn lemma_first_bad_require(q: Seq<(Seq<char>, u32)>, i: int)
    requires
        0 <= i < q.len(),
        !valid_identifier(q[i].0),
        forall|j: int| 0 <= j < i ==> valid_identifier(q[j].0),
    ensures
        first_bad_require(q) == Some(i),
{
    let k = first_bad_require(q).unwrap();
    assert(!valid_identifier(q[k].0) && forall|j: int| 0 <= j < k ==> valid_identifier(q[j].0));
}

/// The first `j < i` whose (id, version) equals that of `provides[i]`.
fn find_earlier_duplicate(provides: &Vec<RawCapabilityDescriptor>, i: usize) -> (r: Option<usize>)
    requires
        i < provides.len(),
    ensures
        r is Some <==> exists|j: int|
            0 <= j < i && #[trigger] provides@[j].id@ == provides@[i as int].id@ && provides@[j].version
                == provides@[i as int].version,
{
    let mut j: usize = 0;
    while j < i
        invariant
            i < provides.len(),
            j <= i,
            forall|k: int|
                0 <= k < j ==> !(#[trigger] provides@[k].id@ == provides@[i as int].id@
                    && provides@[k].version == provides@[i as int].version),
        decreases i - j,
    {
        if provides[j].version == provides[i].version && provides[j].id == provides[i].id {
            return Some(j);
        }
        j += 1;
    }
    None
}


/// Validates `raw` against the running Axiom version, given as text.
#[verifier::loop_isolation(false)]
pub fn validate_against(raw: RawModuleManifest, running: &str) -> (r: Result<
    ModuleManifest,
    ManifestError,
>)
    ensures
        result_view(r) == validate_spec(raw@, running@),
{
    if raw.manifest_version != 1 {
        let supported: Vec<u32> = vec![1u32];
        assert(supported@ =~= seq![1u32]);
        return Err(ManifestError::UnsupportedManifestVersion { found: raw.manifest_version, supported });
    }
    if raw.id.as_str().is_empty() {
        proof {
            assert(raw.id@.len() == 0);
        }
        return Err(ManifestError::MissingModuleId);
    }
    let module_id = ModuleId::new(raw.id.as_str())?;
    let version = match Version::parse(raw.version.as_str()) {
        Some(v) => v,
        None => {
            return Err(ManifestError::MalformedVersion { field: "version", value: raw.version });
        },
    };
    let minimum = match Version::parse(raw.minimum_axiom_version.as_str()) {
        Some(v) => v,
        None => {
            return Err(
                ManifestError::MalformedVersion {
                    field: "minimum_axiom_version",
                    value: raw.minimum_axiom_version,
                },
            );
        },
    };
    let running = match Version::parse(running) {
        Some(v) => v,
        None => {
            return Err(ManifestError::MalformedVersion { field: "axiom_version", value: running.to_owned() });
        },
    };
    if minimum.greater_than(&running) {
        return Err(ManifestError::IncompatibleAxiomVersion { required: minimum, running });
    }
    let offline = match &raw.offline {
        DecodedOffline::Level(o) => *o,
        DecodedOffline::Rejected(message) => {
            return Err(ManifestError::TomlSyntax(message.clone()));
        },
    };
    let ghost pv = raw@.provides;
    let mut provides: Vec<CapabilityDescriptor> = Vec::new();
    let mut i: usize = 0;
    while i < raw.provides.len()
        invariant
            pv == raw@.provides,
            i <= raw.provides.len(),
            pv.len() == raw.provides.len(),
            forall|j: int| 0 <= j < i ==> !provide_bad_at(pv, j),
            provides@.map_values(|d: CapabilityDescriptor| (d.id@, d.version)) == pv.take(i as int),
        decreases raw.provides.len() - i,
    {
        let raw_capability = &raw.provides[i];
        assert(pv[i as int] == (raw_capability.id@, raw_capability.version));
        assert forall|j: int| 0 <= j < i implies (pv[j] == pv[i as int] <==> (#[trigger] raw.provides@[j].id@
            == raw.provides@[i as int].id@ && raw.provides@[j].version == raw.provides@[i as int].version)) by {
            assert(pv[j] == (raw.provides@[j].id@, raw.provides@[j].version));
        }
        let capability_id = match CapabilityId::new(raw_capability.id.as_str()) {
            Ok(c) => c,
            Err(e) => {
                proof {
                    lemma_first_bad_provide(pv, i as int);
                }
                return Err(e);
            },
        };
        if let Some(_) = find_earlier_duplicate(&raw.provides, i) {
            proof {
                lemma_first_bad_provide(pv, i as int);
            }
            return Err(
                ManifestError::DuplicateCapability {
                    module_id: raw.id,
                    capability_id: raw.provides[i].id.clone(),
                },
            );
        }
        provides.push(CapabilityDescriptor { id: capability_id, version: raw.provides[i].version });
        proof {
            assert(pv.take(i + 1) =~= pv.take(i as int).push(pv[i as int]));
        }
        i += 1;
    }
    proof {
        assert(pv.take(i as int) =~= pv);
        assert(first_bad_provide(pv) is None);
    }
    let ghost qv = raw@.requirements;
    let mut requirements: Vec<CapabilityRequirement> = Vec::new();
    let mut i: usize = 0;
    while i < raw.requirements.len()
        invariant
            qv == raw@.requirements,
            i <= raw.requirements.len(),
            qv.len() == raw.requirements.len(),
            forall|j: int| 0 <= j < i ==> valid_identifier(qv[j].0),
            requirements@.map_values(|d: CapabilityRequirement| (d.id@, d.min_version)) == qv.take(i as int),
        decreases raw.requirements.len() - i,
    {
        let requirement = &raw.requirements[i];
        assert(qv[i as int] == (requirement.id@, requirement.min_version));
        let capability_id = match CapabilityId::new(requirement.id.as_str()) {
            Ok(c) => c,
            Err(e) => {
                proof {
                    lemma_first_bad_require(qv, i as int);
                }
                return Err(e);
            },
        };
        requirements.push(CapabilityRequirement { id: capability_id, min_version: requirement.min_version });
        proof {
            assert(qv.take(i + 1) =~= qv.take(i as int).push(qv[i as int]));
        }
        i += 1;
    }
    proof {
        assert(qv.take(i as int) =~= qv);
        assert(first_bad_require(qv) is None);
    }
    Ok(
        ModuleManifest {
            id: module_id,
            name: raw.name,
            version,
            minimum_axiom_version: minimum,
            offline,
            provides,
            requirements,
        },
    )
}

/// Validates `raw` against the running Axiom version.
pub fn validate(raw: RawModuleManifest) -> (r: Result<ModuleManifest, ManifestError>)
    ensures
        result_view(r) == validate_spec(raw@, AXIOM_VERSION@),
{
    validate_against(raw, AXIOM_VERSION)
}


/// A list of numbers as `{:?}` writes it: `[1, 2]`.
pub open spec fn number_list(v: Seq<u32>) -> Seq<char> {
    seq!['['] + join(v.map_values(|n: u32| decimal(n as nat)), ", "@) + seq![']']
}

fn number_list_string(v: &Vec<u32>) -> (r: String)
    ensures
        r@ == number_list(v@),
{
    let mut parts: Vec<String> = Vec::new();
    let mut i: usize = 0;
    while i < v.len()
        invariant
            i <= v.len(),
            string_views(parts@) == v@.take(i as int).map_values(|n: u32| decimal(n as nat)),
        decreases v.len() - i,
    {
        let ghost before = parts@;
        let d = decimal_string(v[i] as u64);
        parts.push(d);
        assert(string_views(parts@) =~= string_views(before).push(d@));
        assert(v@.take(i + 1) =~= v@.take(i as int).push(v@[i as int]));
        assert(string_views(parts@) =~= v@.take(i + 1).map_values(|n: u32| decimal(n as nat)));
        i += 1;
    }
    assert(v@.take(i as int) =~= v@);
    let mut m = String::new();
    crate::text::push_char(&mut m, '[');
    let j = join_strings(&parts, ", ");
    append_str(&mut m, j.as_str());
    crate::text::push_char(&mut m, ']');
    m
}

pub open spec fn manifest_message(e: ManifestError) -> Seq<char> {
    match e {
        ManifestError::MissingModuleId => Seq::<char>::empty() + "module id is empty"@,
        ManifestError::MalformedVersion { field, value } => Seq::<char>::empty() + field@ + " is not a semantic version: "@ + value@,
        ManifestError::InvalidIdentifier { value } => Seq::<char>::empty() + "invalid module or capability identifier: "@ + value@,
        ManifestError::DuplicateCapability { module_id, capability_id } => Seq::<char>::empty() + "module "@ + module_id@ + " declares capability "@ + capability_id@ + " more than once at the same version"@,
        ManifestError::IncompatibleAxiomVersion { required, running } => Seq::<char>::empty() + "module requires Axiom "@ + required@ + ", but this build is "@ + running@,
        ManifestError::TomlSyntax(message) => Seq::<char>::empty() + "invalid module manifest TOML: "@ + message@,
        ManifestError::UnsupportedManifestVersion { found, supported } => Seq::<char>::empty() + "unsupported manifest version "@ + decimal(found as nat) + "; supported versions: "@ + number_list(supported@),
    }
}

impl ManifestError {
    /// The error as text.
    pub fn message(&self) -> (r: String)
        ensures
            r@ == manifest_message(*self),
    {
        match self {
            ManifestError::MissingModuleId => {
                let mut m = String::new();
                append_str(&mut m, "module id is empty");
                m
            },
            ManifestError::MalformedVersion { field, value } => {
                let mut m = String::new();
                append_str(&mut m, *field);
                append_str(&mut m, " is not a semantic version: ");
                append_str(&mut m, value.as_str());
                m
            },
            ManifestError::InvalidIdentifier { value } => {
                let mut m = String::new();
                append_str(&mut m, "invalid module or capability identifier: ");
                append_str(&mut m, value.as_str());
                m
            },
            ManifestError::DuplicateCapability { module_id, capability_id } => {
                let mut m = String::new();
                append_str(&mut m, "module ");
                append_str(&mut m, module_id.as_str());
                append_str(&mut m, " declares capability ");
                append_str(&mut m, capability_id.as_str());
                append_str(&mut m, " more than once at the same version");
                m
            },
            ManifestError::IncompatibleAxiomVersion { required, running } => {
                let mut m = String::new();
                append_str(&mut m, "module requires Axiom ");
                append_str(&mut m, required.as_str());
                append_str(&mut m, ", but this build is ");
                append_str(&mut m, running.as_str());
                m
            },
            ManifestError::TomlSyntax(message) => {
                let mut m = String::new();
                append_str(&mut m, "invalid module manifest TOML: ");
                append_str(&mut m, message.as_str());
                m
            },
            ManifestError::UnsupportedManifestVersion { found, supported } => {
                let mut m = String::new();
                append_str(&mut m, "unsupported manifest version ");
                let d = decimal_string(*found as u64);
                append_str(&mut m, d.as_str());
                append_str(&mut m, "; supported versions: ");
                let l = number_list_string(supported);
                append_str(&mut m, l.as_str());
                m
            },
        }
    }
}

} // verus!
