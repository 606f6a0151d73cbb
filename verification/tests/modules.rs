use axiom_core::modules::identifier::{CapabilityId, ModuleId};
use axiom_core::modules::manifest::{
    axiom_version, validate, validate_against, CapabilityRequirement, DecodedOffline, ManifestError,
    ModuleManifest, OfflineCapability, RawCapabilityDescriptor, RawCapabilityRequirement,
    RawModuleManifest,
};
use axiom_core::modules::registry::{
    InvocationError, ModuleInstallation, ModuleRegistry, RegistryError,
};
use axiom_core::modules::source::{EmbeddedManifestSource, ManifestSource};

fn raw(id: &str, provides: &[(&str, u32)]) -> RawModuleManifest {
    RawModuleManifest {
        manifest_version: 1,
        id: id.to_owned(),
        name: "Test Fixture".to_owned(),
        version: "0.1.0".to_owned(),
        minimum_axiom_version: "0.1.0".to_owned(),
        offline: DecodedOffline::Level(OfflineCapability::Full),
        provides: provides
            .iter()
            .map(|(id, version)| RawCapabilityDescriptor {
                id: id.to_string(),
                version: *version,
            })
            .collect(),
        requirements: vec![RawCapabilityRequirement {
            id: "knowledge.query".to_owned(),
            min_version: 1,
        }],
    }
}

fn manifest(id: &str, capability: &str, version: u32) -> ModuleManifest {
    validate(raw(id, &[(capability, version)])).unwrap()
}

fn module_id(value: &str) -> ModuleId {
    ModuleId::new(value).unwrap()
}

fn installation(workspace_id: &str, enabled_module_ids: Vec<ModuleId>) -> ModuleInstallation {
    ModuleInstallation {
        workspace_id: workspace_id.to_owned(),
        enabled_module_ids,
    }
}

fn requirement(capability_id: &str, min_version: u32) -> CapabilityRequirement {
    CapabilityRequirement {
        id: CapabilityId::new(capability_id).unwrap(),
        min_version,
    }
}

#[test]
fn valid_manifest_parses_into_validated_types() {
    let manifest = validate(raw("org.axiom.test_fixture", &[("fixture.echo", 1)])).unwrap();
    assert_eq!(manifest.id, module_id("org.axiom.test_fixture"));
    assert_eq!(manifest.name, "Test Fixture");
    assert_eq!(manifest.version.as_str(), "0.1.0");
    assert_eq!(manifest.minimum_axiom_version.as_str(), "0.1.0");
    assert_eq!(manifest.offline, OfflineCapability::Full);
    assert_eq!(manifest.provides.len(), 1);
    assert_eq!(manifest.provides[0].id.as_str(), "fixture.echo");
    assert_eq!(manifest.provides[0].version, 1);
    assert_eq!(manifest.requirements.len(), 1);
    assert_eq!(manifest.requirements[0].id.as_str(), "knowledge.query");
    assert_eq!(manifest.requirements[0].min_version, 1);
    let running = axiom_version().unwrap();
    assert!(!manifest.minimum_axiom_version.greater_than(&running));
}

#[test]
fn empty_module_id_is_missing() {
    assert!(matches!(
        validate(raw("", &[("fixture.echo", 1)])),
        Err(ManifestError::MissingModuleId)
    ));
}

#[test]
fn duplicate_provided_capability_is_rejected() {
    assert!(matches!(
        validate(raw("org.axiom.duplicate", &[("fixture.echo", 1), ("fixture.echo", 1)])),
        Err(ManifestError::DuplicateCapability {
            module_id,
            capability_id,
        }) if module_id == "org.axiom.duplicate" && capability_id == "fixture.echo"
    ));
}

#[test]
fn one_capability_at_two_versions_is_not_a_duplicate() {
    let manifest = validate(raw("org.axiom.versions", &[("fixture.echo", 1), ("fixture.echo", 2)])).unwrap();
    assert_eq!(manifest.provides.len(), 2);
    assert_eq!(manifest.provides[1].version, 2);
}

#[test]
fn unsupported_manifest_version_is_rejected() {
    let mut manifest = raw("org.axiom.test_fixture", &[("fixture.echo", 1)]);
    manifest.manifest_version = 2;
    assert!(matches!(
        validate(manifest),
        Err(ManifestError::UnsupportedManifestVersion { found: 2, supported }) if supported == vec![1]
    ));
}

#[test]
fn invalid_identifier_is_rejected() {
    assert!(matches!(
        validate(raw("org.axiom.test_fixture", &[("Fixture.Echo", 1)])),
        Err(ManifestError::InvalidIdentifier { value }) if value == "Fixture.Echo"
    ));
}

#[test]
fn malformed_module_and_minimum_axiom_versions_are_distinguished() {
    let mut manifest = raw("org.axiom.test_fixture", &[("fixture.echo", 1)]);
    manifest.version = "not-semver".to_owned();
    assert!(matches!(
        validate(manifest),
        Err(ManifestError::MalformedVersion {
            field: "version",
            value,
        }) if value == "not-semver"
    ));
    let mut manifest = raw("org.axiom.test_fixture", &[("fixture.echo", 1)]);
    manifest.minimum_axiom_version = "still-not-semver".to_owned();
    assert!(matches!(
        validate(manifest),
        Err(ManifestError::MalformedVersion {
            field: "minimum_axiom_version",
            value,
        }) if value == "still-not-semver"
    ));
}

#[test]
fn newer_minimum_axiom_version_is_incompatible() {
    let mut manifest = raw("org.axiom.test_fixture", &[("fixture.echo", 1)]);
    manifest.minimum_axiom_version = "99.0.0".to_owned();
    match validate(manifest) {
        Err(ManifestError::IncompatibleAxiomVersion { required, running }) => {
            assert_eq!(required.as_str(), "99.0.0");
            assert_eq!(running.as_str(), "0.1.0");
        }
        other => panic!("unexpected result: {other:?}"),
    }
}

#[test]
fn unknown_offline_capability_is_a_syntax_error() {
    let mut manifest = raw("org.axiom.test_fixture", &[("fixture.echo", 1)]);
    let message = "unknown variant `sometimes`, expected one of `full`, `enhanced`, `required`\n";
    manifest.offline = DecodedOffline::Rejected(message.to_owned());
    match validate(manifest) {
        Err(ManifestError::TomlSyntax(text)) => assert_eq!(text, message),
        other => panic!("unexpected result: {other:?}"),
    }
}

#[test]
fn validation_is_against_the_given_running_version() {
    let mut manifest = raw("org.axiom.test_fixture", &[("fixture.echo", 1)]);
    manifest.minimum_axiom_version = "1.5.0".to_owned();
    assert!(validate_against(manifest.clone(), "2.0.0").is_ok());
    assert!(matches!(
        validate_against(manifest.clone(), "1.4.9"),
        Err(ManifestError::IncompatibleAxiomVersion { .. })
    ));
    match validate_against(manifest, "not.a.version") {
        Err(ManifestError::MalformedVersion { field, value }) => {
            assert_eq!(field, "axiom_version");
            assert_eq!(value, "not.a.version");
        }
        other => panic!("unexpected result: {other:?}"),
    }
}

#[test]
fn identifiers_enforce_the_locked_grammar() {
    for valid in ["practice.generate", "org.axiom.practice", "a.b", "a0.b_1"] {
        assert!(ModuleId::new(valid).is_ok());
        assert!(CapabilityId::new(valid).is_ok());
    }

    for invalid in [
        "Practice",
        "practice",
        "practice..generate",
        ".practice",
        "practice.",
        "practice.Generate",
        "practice.generate-more",
    ] {
        assert!(matches!(
            ModuleId::new(invalid),
            Err(ManifestError::InvalidIdentifier { .. })
        ));
        assert!(matches!(
            CapabilityId::new(invalid),
            Err(ManifestError::InvalidIdentifier { .. })
        ));
    }
}

#[test]
fn rejected_duplicate_does_not_block_later_registration() {
    let first_id = module_id("org.axiom.first");
    let second_id = module_id("org.axiom.second");
    let mut registry = ModuleRegistry::new();

    assert_eq!(
        registry.register(manifest(first_id.as_str(), "fixture.echo", 1)),
        Ok(first_id.clone())
    );
    assert_eq!(
        registry.register(manifest(first_id.as_str(), "fixture.echo", 2)),
        Err(RegistryError::DuplicateModuleId(first_id))
    );
    assert_eq!(
        registry.register(manifest(second_id.as_str(), "fixture.echo", 1)),
        Ok(second_id)
    );
}

#[test]
fn resolution_uses_enabled_module_priority() {
    let first_id = module_id("org.axiom.first");
    let second_id = module_id("org.axiom.second");
    let mut registry = ModuleRegistry::new();
    registry.register(manifest(first_id.as_str(), "fixture.echo", 1)).unwrap();
    registry.register(manifest(second_id.as_str(), "fixture.echo", 2)).unwrap();

    let first_installation = installation("workspace-1", vec![first_id.clone(), second_id.clone()]);
    let first_handle = registry
        .resolve(&first_installation, &requirement("fixture.echo", 1))
        .unwrap();
    let second_installation = installation("workspace-1", vec![second_id.clone(), first_id.clone()]);
    let second_handle = registry
        .resolve(&second_installation, &requirement("fixture.echo", 1))
        .unwrap();

    assert_eq!(first_handle.module_id(), &first_id);
    assert_eq!(first_handle.version(), 1);
    assert_eq!(second_handle.module_id(), &second_id);
    assert_eq!(second_handle.version(), 2);
}

#[test]
fn resolution_rejects_disabled_and_incompatible_providers() {
    let provider_id = module_id("org.axiom.provider");
    let mut registry = ModuleRegistry::new();
    registry.register(manifest(provider_id.as_str(), "fixture.echo", 1)).unwrap();

    assert_eq!(
        registry.resolve(&installation("workspace-1", Vec::new()), &requirement("fixture.echo", 1)),
        Err(RegistryError::NoCompatibleProvider {
            capability_id: CapabilityId::new("fixture.echo").unwrap(),
            min_version: 1,
        })
    );
    assert_eq!(
        registry.resolve(&installation("workspace-1", vec![provider_id]), &requirement("fixture.echo", 2)),
        Err(RegistryError::NoCompatibleProvider {
            capability_id: CapabilityId::new("fixture.echo").unwrap(),
            min_version: 2,
        })
    );
}

#[test]
fn duplicate_module_id_rejects_second_registration_without_corrupting_first() {
    let first = manifest("org.axiom.duplicate_module", "fixture.echo", 1);
    let second = manifest("org.axiom.duplicate_module", "fixture.echo", 5);
    let module_id = first.id.clone();
    let mut registry = ModuleRegistry::new();
    registry.register(first).unwrap();
    assert_eq!(
        registry.register(second),
        Err(RegistryError::DuplicateModuleId(module_id.clone()))
    );
    let installation = installation("duplicate-workspace", vec![module_id.clone()]);
    let handle = registry
        .resolve(&installation, &requirement("fixture.echo", 1))
        .unwrap();
    assert_eq!(handle.module_id(), &module_id);
    assert_eq!(handle.version(), 1);
}

#[test]
fn missing_dependency_returns_no_compatible_provider() {
    let registry = ModuleRegistry::new();
    let installation = installation("missing-workspace", Vec::new());

    assert_eq!(
        registry.resolve(&installation, &requirement("missing.dependency", 1)),
        Err(RegistryError::NoCompatibleProvider {
            capability_id: CapabilityId::new("missing.dependency").unwrap(),
            min_version: 1,
        })
    );
}

#[test]
fn incompatible_version_returns_no_compatible_provider() {
    let manifest = manifest("org.axiom.practice_first", "practice.generate", 1);
    let module_id = manifest.id.clone();
    let mut registry = ModuleRegistry::new();
    registry.register(manifest).unwrap();

    assert_eq!(
        registry.resolve(
            &installation("version-workspace", vec![module_id]),
            &requirement("practice.generate", 2),
        ),
        Err(RegistryError::NoCompatibleProvider {
            capability_id: CapabilityId::new("practice.generate").unwrap(),
            min_version: 2,
        })
    );
}

#[test]
fn duplicate_provider_resolution_follows_installation_order() {
    let first = manifest("org.axiom.practice_first", "practice.generate", 1);
    let second = manifest("org.axiom.practice_second", "practice.generate", 1);
    let first_id = first.id.clone();
    let second_id = second.id.clone();
    let mut registry = ModuleRegistry::new();
    registry.register(first).unwrap();
    registry.register(second).unwrap();

    let first_installation = installation("priority-workspace", vec![first_id.clone(), second_id.clone()]);
    let second_installation = installation("priority-workspace", vec![second_id.clone(), first_id.clone()]);
    let first_handle = registry
        .resolve(&first_installation, &requirement("practice.generate", 1))
        .unwrap();
    let second_handle = registry
        .resolve(&second_installation, &requirement("practice.generate", 1))
        .unwrap();
    assert_eq!(first_handle.module_id(), &first_id);
    assert_eq!(second_handle.module_id(), &second_id);
}

#[test]
fn disabled_module_is_skipped_during_resolution() {
    let manifest = manifest("org.axiom.practice_first", "practice.generate", 1);
    let mut registry = ModuleRegistry::new();
    registry.register(manifest).unwrap();

    assert_eq!(
        registry.resolve(
            &installation("disabled-workspace", Vec::new()),
            &requirement("practice.generate", 1),
        ),
        Err(RegistryError::NoCompatibleProvider {
            capability_id: CapabilityId::new("practice.generate").unwrap(),
            min_version: 1,
        })
    );
}

#[test]
fn workspace_installations_isolate_enabled_providers() {
    let practice = manifest("org.axiom.practice_first", "practice.generate", 1);
    let secondary = manifest("org.axiom.secondary", "secondary.echo", 1);
    let practice_id = practice.id.clone();
    let secondary_id = secondary.id.clone();
    let mut registry = ModuleRegistry::new();
    registry.register(practice).unwrap();
    registry.register(secondary).unwrap();

    let practice_workspace = installation("workspace-a", vec![practice_id]);
    let secondary_workspace = installation("workspace-b", vec![secondary_id]);
    assert!(registry
        .resolve(&practice_workspace, &requirement("practice.generate", 1))
        .is_ok());
    assert_eq!(
        registry.resolve(&secondary_workspace, &requirement("practice.generate", 1)),
        Err(RegistryError::NoCompatibleProvider {
            capability_id: CapabilityId::new("practice.generate").unwrap(),
            min_version: 1,
        })
    );
}

#[test]
fn invocation_checks_enablement_and_wraps_failures() {
    let id = module_id("org.axiom.practice_first");
    let mut registry = ModuleRegistry::new();
    registry.register(manifest(id.as_str(), "practice.generate", 1)).unwrap();
    let enabled = installation("workspace-a", vec![id.clone()]);
    let handle = registry.resolve(&enabled, &requirement("practice.generate", 1)).unwrap();
    assert_eq!(registry.check_invocation(&handle, &enabled), Ok(()));
    assert_eq!(
        registry.check_invocation(&handle, &installation("workspace-a", vec![])),
        Err(RegistryError::ModuleDisabled(id.clone()))
    );
    let error = registry.invocation_failed(
        &handle,
        InvocationError::Failed {
            message: "fixture failure".to_owned(),
        },
    );
    assert_eq!(
        error.message(),
        "module org.axiom.practice_first failed to invoke practice.generate: fixture failure"
    );
}

const EMBEDDED: &[(&str, &str)] = &[
    ("org.axiom.integration_echo", "manifest_version = 1\n"),
    ("org.axiom.integration_secondary", "manifest_version = 1\n"),
];

const EMBEDDED_BAD_ID: &[(&str, &str)] = &[
    ("org.axiom.integration_echo", ""),
    ("Broken", ""),
    ("also-broken", ""),
];

#[test]
fn embedded_source_discovers_every_entry_in_order() {
    let discovered = EmbeddedManifestSource::new(EMBEDDED).discover().unwrap();
    assert_eq!(discovered.len(), 2);
    assert_eq!(discovered[0].0, module_id("org.axiom.integration_echo"));
    assert_eq!(discovered[1].0, module_id("org.axiom.integration_secondary"));
    assert_eq!(discovered[1].1, "manifest_version = 1\n");
}

#[test]
fn embedded_source_rejects_the_first_invalid_module_id() {
    assert!(matches!(
        EmbeddedManifestSource::new(EMBEDDED_BAD_ID).discover(),
        Err(ManifestError::InvalidIdentifier { value }) if value == "Broken"
    ));
}
