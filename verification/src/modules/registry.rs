//! The module registry: which manifests are registered, which enabled module
//! answers a capability requirement, and whether a resolved handle may still be
//! invoked. The providers themselves (asynchronous trait objects) are held by
//! the application beside the registry, keyed by module id.
use vstd::prelude::*;

use crate::text::{append_str, decimal, decimal_string};

use super::identifier::{CapabilityId, ModuleId};
use super::manifest::{CapabilityRequirement, ManifestView, ModuleManifest};

verus! {

/// A capability call: its envelope and its typed input.
#[derive(Debug, Clone, PartialEq)]
pub struct CapabilityCall<Input> {
    pub envelope: CallEnvelope,
    pub input: Input,
}

#[derive(Debug, Clone, PartialEq, Eq)]
pub struct CallEnvelope {
    pub workspace_id: String,
    pub capability_id: CapabilityId,
    pub version: u32,
    pub calling_module_id: ModuleId,
}

/// A resolved capability: the module that provides it and the version it provides.
#[derive(Debug, PartialEq, Eq)]
pub struct CapabilityHandle {
    module_id: ModuleId,
    capability_id: CapabilityId,
    version: u32,
}

/// The modules enabled in a workspace, in priority order.
#[derive(Debug, Clone, PartialEq, Eq)]
pub struct ModuleInstallation {
    pub workspace_id: String,
    pub enabled_module_ids: Vec<ModuleId>,
}

#[derive(Debug, PartialEq, Eq)]
pub enum RegistryError {
    DuplicateModuleId(ModuleId),
    NoCompatibleProvider { capability_id: CapabilityId, min_version: u32 },
    ModuleDisabled(ModuleId),
    InvocationFailed { module_id: ModuleId, capability_id: CapabilityId, cause: InvocationError },
}

#[derive(Debug, PartialEq, Eq)]
pub enum InvocationError {
    UnknownCapability { capability_id: CapabilityId, version: u32 },
    InvalidInput { capability_id: CapabilityId, message: String },
    Failed { message: String },
}

/// The registered manifests, at most one per module id.
pub struct ModuleRegistry {
    modules: Vec<ModuleManifest>,
}

impl View for CapabilityHandle {
    type V = (Seq<char>, Seq<char>, u32);

    closed spec fn view(&self) -> (Seq<char>, Seq<char>, u32) {
        (self.module_id@, self.capability_id@, self.version)
    }
}

impl Clone for CapabilityHandle {
    fn clone(&self) -> (r: Self)
        ensures
            r@ == self@,
    {
        CapabilityHandle {
            module_id: self.module_id.clone(),
            capability_id: self.capability_id.clone(),
            version: self.version,
        }
    }
}

impl CapabilityHandle {
    pub fn module_id(&self) -> (r: &ModuleId)
        ensures
            r@ == self@.0,
    {
        &self.module_id
    }

    pub fn capability_id(&self) -> (r: &CapabilityId)
        ensures
            r@ == self@.1,
    {
        &self.capability_id
    }

    pub fn version(&self) -> (r: u32)
        ensures
            r == self@.2,
    {
        self.version
    }
}

/// The ids of a sequence of manifests, in order.
pub open spec fn manifest_ids(modules: Seq<ModuleManifest>) -> Seq<Seq<char>> {
    modules.map_values(|m: ModuleManifest| m@.id)
}

/// The ids of a sequence of module ids, as character sequences.
pub open spec fn id_views(ids: Seq<ModuleId>) -> Seq<Seq<char>> {
    ids.map_values(|m: ModuleId| m@)
}

/// The first capability of `m` that meets the requirement (same id, at least the version).
#[verifier::opaque]
pub open spec fn first_compatible(m: ManifestView, id: Seq<char>, min_version: u32) -> Option<int> {
    if exists|k: int|
        0 <= k < m.provides.len() && m.provides[k].0 == id && m.provides[k].1 >= min_version {
        Some(
            choose|k: int|
                0 <= k < m.provides.len() && m.provides[k].0 == id && m.provides[k].1 >= min_version
                    && forall|l: int|
                    0 <= l < k ==> !(m.provides[l].0 == id && m.provides[l].1 >= min_version),
        )
    } else {
        None
    }
}

/// The registered manifest with id `id`.
#[verifier::opaque]
pub open spec fn registered(modules: Seq<ModuleManifest>, id: Seq<char>) -> Option<ManifestView> {
    if exists|i: int| 0 <= i < modules.len() && modules[i]@.id == id {
        Some(modules[choose|i: int| 0 <= i < modules.len() && modules[i]@.id == id]@)
    } else {
        None
    }
}

/// The enabled module at `i` is registered and provides a compatible capability.
pub open spec fn answers(
    modules: Seq<ModuleManifest>,
    enabled: Seq<Seq<char>>,
    i: int,
    id: Seq<char>,
    min_version: u32,
) -> bool {
    &&& registered(modules, enabled[i]) is Some
    &&& first_compatible(registered(modules, enabled[i]).unwrap(), id, min_version) is Some
}

/// Resolution: the first enabled module (in installation order) that is
/// registered and provides the capability at `min_version` or newer; within
/// that module, the first such capability it declares.
pub open spec fn resolve_spec(
    modules: Seq<ModuleManifest>,
    enabled: Seq<Seq<char>>,
    id: Seq<char>,
    min_version: u32,
) -> Option<(Seq<char>, Seq<char>, u32)> {
    if exists|i: int| 0 <= i < enabled.len() && answers(modules, enabled, i, id, min_version) {
        let i = choose|i: int|
            0 <= i < enabled.len() && answers(modules, enabled, i, id, min_version) && forall|j: int|
                0 <= j < i ==> !answers(modules, enabled, j, id, min_version);
        let m = registered(modules, enabled[i]).unwrap();
        let k = first_compatible(m, id, min_version).unwrap();
        Some((enabled[i], m.provides[k].0, m.provides[k].1))
    } else {
        None
    }
}

/// Resolution only ever answers with an enabled module, and with a capability
/// of the id asked for at the version asked for or newer; a workspace whose
/// installation does not enable a module never reaches it.
pub proof fn lemma_resolution_is_enabled_and_compatible(
    modules: Seq<ModuleManifest>,
    enabled: Seq<Seq<char>>,
    id: Seq<char>,
    min_version: u32,
)
    ensures
        resolve_spec(modules, enabled, id, min_version) matches Some(h) ==> enabled.contains(h.0) && h.1 == id
            && h.2 >= min_version,
{
    if exists|i: int| 0 <= i < enabled.len() && answers(modules, enabled, i, id, min_version) {
        let i = choose|i: int|
            0 <= i < enabled.len() && answers(modules, enabled, i, id, min_version) && forall|j: int|
                0 <= j < i ==> !answers(modules, enabled, j, id, min_version);
        let w = choose|i: int| 0 <= i < enabled.len() && answers(modules, enabled, i, id, min_version);
        lemma_first_answer(modules, enabled, id, min_version, w);
        let m = registered(modules, enabled[i]).unwrap();
        lemma_first_compatible(m, id, min_version);
        assert(enabled.contains(enabled[i]));
    }
}

proof fn lemma_first_compatible(m: ManifestView, id: Seq<char>, min_version: u32)
    ensures
        first_compatible(m, id, min_version) matches Some(k) ==> 0 <= k < m.provides.len() && m.provides[k].0 == id
            && m.provides[k].1 >= min_version,
{
    reveal(first_compatible);
    if exists|k: int| 0 <= k < m.provides.len() && m.provides[k].0 == id && m.provides[k].1 >= min_version {
        let w = choose|k: int| 0 <= k < m.provides.len() && m.provides[k].0 == id && m.provides[k].1 >= min_version;
        lemma_first_provide(m, id, min_version, w);
    }
}

proof fn lemma_first_provide(m: ManifestView, id: Seq<char>, min_version: u32, w: int)
    requires
        0 <= w < m.provides.len(),
        m.provides[w].0 == id && m.provides[w].1 >= min_version,
    ensures
        exists|k: int|
            0 <= k < m.provides.len() && m.provides[k].0 == id && m.provides[k].1 >= min_version && forall|l: int|
                0 <= l < k ==> !(m.provides[l].0 == id && m.provides[l].1 >= min_version),
    decreases w,
{
    if exists|l: int| 0 <= l < w && m.provides[l].0 == id && m.provides[l].1 >= min_version {
        let l = choose|l: int| 0 <= l < w && m.provides[l].0 == id && m.provides[l].1 >= min_version;
        lemma_first_provide(m, id, min_version, l);
    }
}

proof fn lemma_first_answer(
    modules: Seq<ModuleManifest>,
    enabled: Seq<Seq<char>>,
    id: Seq<char>,
    min_version: u32,
    w: int,
)
    requires
        0 <= w < enabled.len(),
        answers(modules, enabled, w, id, min_version),
    ensures
        exists|i: int|
            0 <= i < enabled.len() && answers(modules, enabled, i, id, min_version) && forall|j: int|
                0 <= j < i ==> !answers(modules, enabled, j, id, min_version),
    decreases w,
{
    if exists|j: int| 0 <= j < w && answers(modules, enabled, j, id, min_version) {
        let j = choose|j: int| 0 <= j < w && answers(modules, enabled, j, id, min_version);
        lemma_first_answer(modules, enabled, id, min_version, j);
    }
}

proof fn lemma_resolve_pick(
    modules: Seq<ModuleManifest>,
    enabled: Seq<Seq<char>>,
    id: Seq<char>,
    min_version: u32,
    i: int,
)
    requires
        0 <= i < enabled.len(),
        answers(modules, enabled, i, id, min_version),
        forall|j: int| 0 <= j < i ==> !answers(modules, enabled, j, id, min_version),
    ensures
        ({
            let m = registered(modules, enabled[i]).unwrap();
            let k = first_compatible(m, id, min_version).unwrap();
            resolve_spec(modules, enabled, id, min_version) == Some((enabled[i], m.provides[k].0, m.provides[k].1))
        }),
{
    let c = choose|c: int|
        0 <= c < enabled.len() && answers(modules, enabled, c, id, min_version) && forall|j: int|
            0 <= j < c ==> !answers(modules, enabled, j, id, min_version);
    if c < i {
        assert(!answers(modules, enabled, c, id, min_version));
    }
    if i < c {
        assert(!answers(modules, enabled, i, id, min_version));
    }
}

/// Whether `id` is among `ids`.
pub fn contains_module(ids: &Vec<ModuleId>, id: &ModuleId) -> (r: bool)
    ensures
        r == id_views(ids@).contains(id@),
{
    let mut i: usize = 0;
    while i < ids.len()
        invariant
            i <= ids.len(),
            forall|j: int| 0 <= j < i ==> ids@[j]@ != id@,
        decreases ids.len() - i,
    {
        if ids[i].same(id) {
            assert(id_views(ids@)[i as int] == id@);
            return true;
        }
        i += 1;
    }
    proof {
        if id_views(ids@).contains(id@) {
            let k = choose|k: int| 0 <= k < id_views(ids@).len() && id_views(ids@)[k] == id@;
            assert(ids@[k]@ == id@);
        }
    }
    false
}

impl ModuleRegistry {
    /// The registered manifests, in registration order.
    pub closed spec fn manifests(&self) -> Seq<ModuleManifest> {
        self.modules@
    }

    /// No two registered manifests share an id.
    pub closed spec fn well_formed(&self) -> bool {
        manifest_ids(self.modules@).no_duplicates()
    }

    pub fn new() -> (r: Self)
        ensures
            r.manifests() == Seq::<ModuleManifest>::empty(),
            r.well_formed(),
    {
        ModuleRegistry { modules: Vec::new() }
    }

    fn position_of(&self, id: &ModuleId) -> (r: Option<usize>)
        requires
            self.well_formed(),
        ensures
            r is None <==> !manifest_ids(self.manifests()).contains(id@),
            r is None ==> registered(self.manifests(), id@) is None,
            r matches Some(i) ==> i < self.manifests().len() && self.manifests()[i as int]@.id == id@
                && registered(self.manifests(), id@) == Some(self.manifests()[i as int]@),
    {
        reveal(registered);
        let mut i: usize = 0;
        while i < self.modules.len()
            invariant
                self.well_formed(),
                i <= self.modules.len(),
                forall|j: int| 0 <= j < i ==> self.modules@[j]@.id != id@,
            decreases self.modules.len() - i,
        {
            if self.modules[i].id.same(id) {
                proof {
                    reveal(registered);
                    let ms = self.modules@;
                    assert(ms[i as int]@.id == id@);
                    assert(exists|k: int| 0 <= k < ms.len() && ms[k]@.id == id@);
                    let k = choose|k: int| 0 <= k < ms.len() && ms[k]@.id == id@;
                    assert(manifest_ids(ms)[k] == ms[k]@.id);
                    assert(manifest_ids(ms)[i as int] == ms[i as int]@.id);
                    assert(k == i);
                }
                return Some(i);
            }
            i += 1;
        }
        proof {
            reveal(registered);
            if manifest_ids(self.modules@).contains(id@) {
                let k = choose|k: int| 0 <= k < manifest_ids(self.modules@).len() && manifest_ids(self.modules@)[k] == id@;
                assert(self.modules@[k]@.id == id@);
            }
        }
        None
    }

    /// Registers `manifest`, unless a module with its id is already registered;
    /// a rejected registration leaves the registry as it was.
    pub fn register(&mut self, manifest: ModuleManifest) -> (r: Result<ModuleId, RegistryError>)
        requires
            old(self).well_formed(),
        ensures
            final(self).well_formed(),
            manifest_ids(old(self).manifests()).contains(manifest@.id) ==> (r matches Err(
                RegistryError::DuplicateModuleId(id),
            ) && id@ == manifest@.id && final(self).manifests() == old(self).manifests()),
            !manifest_ids(old(self).manifests()).contains(manifest@.id) ==> (r matches Ok(id) && id@
                == manifest@.id && final(self).manifests() == old(self).manifests().push(manifest)),
    {
        let module_id = manifest.id.clone();
        if self.position_of(&module_id).is_some() {
            return Err(RegistryError::DuplicateModuleId(module_id));
        }
        let ghost before = self.modules@;
        self.modules.push(manifest);
        proof {
            assert(manifest_ids(self.modules@) =~= manifest_ids(before).push(manifest@.id));
            assert forall|a: int, b: int|
                0 <= a < manifest_ids(self.modules@).len() && 0 <= b < manifest_ids(self.modules@).len()
                    && a != b implies manifest_ids(self.modules@)[a] != manifest_ids(self.modules@)[b] by {
                if a == before.len() as int {
                    assert(manifest_ids(before)[b] == manifest_ids(self.modules@)[b]);
                } else if b == before.len() as int {
                    assert(manifest_ids(before)[a] == manifest_ids(self.modules@)[a]);
                }
            }
        }
        Ok(module_id)
    }

    fn first_compatible_in(m: &ModuleManifest, requirement: &CapabilityRequirement) -> (r: Option<usize>)
        ensures
            r matches Some(k) ==> k < m.provides.len() && first_compatible(m@, requirement.id@, requirement.min_version) == Some(k as int),
            r is None ==> first_compatible(m@, requirement.id@, requirement.min_version) is None,
    {
        reveal(first_compatible);
        let ghost p = m@.provides;
        let mut k: usize = 0;
        while k < m.provides.len()
            invariant
                p == m@.provides,
                p.len() == m.provides.len(),
                k <= m.provides.len(),
                forall|l: int| 0 <= l < k ==> !(p[l].0 == requirement.id@ && p[l].1 >= requirement.min_version),
            decreases m.provides.len() - k,
        {
            let c = &m.provides[k];
            assert(p[k as int] == (c.id@, c.version));
            if c.id.same(&requirement.id) && c.version >= requirement.min_version {
                proof {
                    reveal(first_compatible);
                    let idv = requirement.id@;
                    let mv = requirement.min_version;
                    let j = choose|j: int|
                        0 <= j < p.len() && p[j].0 == idv && p[j].1 >= mv && forall|l: int|
                            0 <= l < j ==> !(p[l].0 == idv && p[l].1 >= mv);
                    assert(j == k);
                }
                return Some(k);
            }
            k += 1;
        }
        proof {
            reveal(first_compatible);
        }
        None
    }

    /// Finds the provider of `requirement` among the enabled modules.
    #[verifier::rlimit(40)]
    pub fn resolve(&self, installation: &ModuleInstallation, requirement: &CapabilityRequirement) -> (r:
        Result<CapabilityHandle, RegistryError>)
        requires
            self.well_formed(),
        ensures
            ({
                let expected = resolve_spec(
                    self.manifests(),
                    id_views(installation.enabled_module_ids@),
                    requirement.id@,
                    requirement.min_version,
                );
                &&& expected matches Some(h) ==> (r matches Ok(handle) && handle@ == h)
                &&& expected is None ==> (r matches Err(
                    RegistryError::NoCompatibleProvider { capability_id, min_version },
                ) && capability_id@ == requirement.id@ && min_version == requirement.min_version)
            }),
    {
        let ghost enabled = id_views(installation.enabled_module_ids@);
        let ghost idv = requirement.id@;
        let ghost mv = requirement.min_version;
        let mut i: usize = 0;
        while i < installation.enabled_module_ids.len()
            invariant
                self.well_formed(),
                enabled == id_views(installation.enabled_module_ids@),
                idv == requirement.id@,
                mv == requirement.min_version,
                i <= installation.enabled_module_ids.len(),
                forall|j: int| 0 <= j < i ==> !answers(self.manifests(), enabled, j, idv, mv),
            decreases installation.enabled_module_ids.len() - i,
        {
            let module_id = &installation.enabled_module_ids[i];
            assert(enabled[i as int] == module_id@);
            if let Some(p) = self.position_of(module_id) {
                let module = &self.modules[p];
                if let Some(k) = Self::first_compatible_in(module, requirement) {
                    let capability = &module.provides[k];
                    proof {
                        assert(module@.provides[k as int] == (capability.id@, capability.version));
                        lemma_resolve_pick(self.manifests(), enabled, idv, mv, i as int);
                    }
                    return Ok(
                        CapabilityHandle {
                            module_id: module_id.clone(),
                            capability_id: capability.id.clone(),
                            version: capability.version,
                        },
                    );
                }
            }
            i += 1;
        }
        Err(
            RegistryError::NoCompatibleProvider {
                capability_id: requirement.id.clone(),
                min_version: requirement.min_version,
            },
        )
    }

    /// The checks made before a resolved capability is invoked: the handle's
    /// module must still be enabled, and still registered.
    pub fn check_invocation(&self, handle: &CapabilityHandle, installation: &ModuleInstallation) -> (r:
        Result<(), RegistryError>)
        requires
            self.well_formed(),
        ensures
            !id_views(installation.enabled_module_ids@).contains(handle@.0) ==> (r matches Err(
                RegistryError::ModuleDisabled(id),
            ) && id@ == handle@.0),
            id_views(installation.enabled_module_ids@).contains(handle@.0) && !manifest_ids(
                self.manifests(),
            ).contains(handle@.0) ==> (r matches Err(
                RegistryError::NoCompatibleProvider { capability_id, min_version },
            ) && capability_id@ == handle@.1 && min_version == handle@.2),
            r is Ok <==> id_views(installation.enabled_module_ids@).contains(handle@.0)
                && manifest_ids(self.manifests()).contains(handle@.0),
    {
        if !contains_module(&installation.enabled_module_ids, &handle.module_id) {
            return Err(RegistryError::ModuleDisabled(handle.module_id.clone()));
        }
        if self.position_of(&handle.module_id).is_none() {
            return Err(
                RegistryError::NoCompatibleProvider {
                    capability_id: handle.capability_id.clone(),
                    min_version: handle.version,
                },
            );
        }
        Ok(())
    }

    /// The error that reports a failed invocation through `handle`.
    pub fn invocation_failed(&self, handle: &CapabilityHandle, cause: InvocationError) -> (r: RegistryError)
        ensures
            r matches RegistryError::InvocationFailed { module_id, capability_id, cause: c } && module_id@
                == handle@.0 && capability_id@ == handle@.1 && c == cause,
    {
        RegistryError::InvocationFailed {
            module_id: handle.module_id.clone(),
            capability_id: handle.capability_id.clone(),
            cause,
        }
    }
}


pub open spec fn invocation_message(e: InvocationError) -> Seq<char> {
    match e {
        InvocationError::UnknownCapability { capability_id, version } => Seq::<char>::empty() + "provider does not implement "@ + capability_id@ + " at version "@ + decimal(version as nat),
        InvocationError::InvalidInput { capability_id, message } => Seq::<char>::empty() + "invalid input for "@ + capability_id@ + ": "@ + message@,
        InvocationError::Failed { message } => Seq::<char>::empty() + message@,
    }
}

pub open spec fn registry_message(e: RegistryError) -> Seq<char> {
    match e {
        RegistryError::DuplicateModuleId(module_id) => Seq::<char>::empty() + "module "@ + module_id@ + " is already registered"@,
        RegistryError::NoCompatibleProvider { capability_id, min_version } => Seq::<char>::empty() + "no enabled module provides "@ + capability_id@ + " at version "@ + decimal(min_version as nat) + " or newer"@,
        RegistryError::ModuleDisabled(module_id) => Seq::<char>::empty() + "module "@ + module_id@ + " is disabled"@,
        RegistryError::InvocationFailed { module_id, capability_id, cause } => Seq::<char>::empty() + "module "@ + module_id@ + " failed to invoke "@ + capability_id@ + ": "@ + invocation_message(cause),
    }
}

impl InvocationError {
    /// The error as text.
    pub fn message(&self) -> (r: String)
        ensures
            r@ == invocation_message(*self),
    {
        match self {
            InvocationError::UnknownCapability { capability_id, version } => {
                let mut m = String::new();
                append_str(&mut m, "provider does not implement ");
                append_str(&mut m, capability_id.as_str());
                append_str(&mut m, " at version ");
                { let d = decimal_string(*version as u64); append_str(&mut m, d.as_str()); }
                m
            },
            InvocationError::InvalidInput { capability_id, message } => {
                let mut m = String::new();
                append_str(&mut m, "invalid input for ");
                append_str(&mut m, capability_id.as_str());
                append_str(&mut m, ": ");
                append_str(&mut m, message.as_str());
                m
            },
            InvocationError::Failed { message } => {
                let mut m = String::new();
                append_str(&mut m, message.as_str());
                m
            },
        }
    }
}

impl RegistryError {
    /// The error as text.
    pub fn message(&self) -> (r: String)
        ensures
            r@ == registry_message(*self),
    {
        match self {
            RegistryError::DuplicateModuleId(module_id) => {
                let mut m = String::new();
                append_str(&mut m, "module ");
                append_str(&mut m, module_id.as_str());
                append_str(&mut m, " is already registered");
                m
            },
            RegistryError::NoCompatibleProvider { capability_id, min_version } => {
                let mut m = String::new();
                append_str(&mut m, "no enabled module provides ");
                append_str(&mut m, capability_id.as_str());
                append_str(&mut m, " at version ");
                { let d = decimal_string(*min_version as u64); append_str(&mut m, d.as_str()); }
                append_str(&mut m, " or newer");
                m
            },
            RegistryError::ModuleDisabled(module_id) => {
                let mut m = String::new();
                append_str(&mut m, "module ");
                append_str(&mut m, module_id.as_str());
                append_str(&mut m, " is disabled");
                m
            },
            RegistryError::InvocationFailed { module_id, capability_id, cause } => {
                let mut m = String::new();
                append_str(&mut m, "module ");
                append_str(&mut m, module_id.as_str());
                append_str(&mut m, " failed to invoke ");
                append_str(&mut m, capability_id.as_str());
                append_str(&mut m, ": ");
                let c = cause.message();
                append_str(&mut m, c.as_str());
                m
            },
        }
    }
}

} // verus!
