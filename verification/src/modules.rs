//! Module manifests, identifiers and the capability registry.
pub mod identifier;
pub mod manifest;
pub mod registry;
pub mod source;

pub use identifier::{CapabilityId, ModuleId};
pub use manifest::{
    axiom_version, validate, validate_against, CapabilityDescriptor, CapabilityRequirement,
    DecodedOffline, ManifestError, ModuleManifest, OfflineCapability, RawCapabilityDescriptor,
    RawCapabilityRequirement, RawModuleManifest,
};
pub use registry::{
    CallEnvelope, CapabilityCall, CapabilityHandle, InvocationError, ModuleInstallation,
    ModuleRegistry, RegistryError,
};
