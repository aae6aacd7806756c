use dom_core::registry::{FeatureDescriptor, RegistryError, WebGLExtensions};

fn descriptor(name: &str, min_version: u64, dependency: Option<&str>) -> FeatureDescriptor {
    FeatureDescriptor {
        name: name.to_owned(),
        min_version,
        dependency: dependency.map(|d| d.to_owned()),
    }
}

/// Register feature `A` (min version 1, no dependency) and `B` (min version
/// 1, depends on `A`); with context version 1 both are supported; lowering
/// the context version to 0 makes both unsupported; enabling `B` at version 0
/// fails with `Unsupported`.
#[test]
fn dependency_and_version_scenario() {
    let mut reg = WebGLExtensions::new(1);
    assert_eq!(reg.register(descriptor("A", 1, None)), Ok(()));
    assert_eq!(reg.register(descriptor("B", 1, Some("A"))), Ok(()));
    assert_eq!(reg.is_supported("A"), Ok(true));
    assert_eq!(reg.is_supported("B"), Ok(true));
    reg.set_version(0);
    assert_eq!(reg.is_supported("A"), Ok(false));
    assert_eq!(reg.is_supported("B"), Ok(false));
    assert_eq!(reg.enable("B"), Err(RegistryError::Unsupported));
    assert!(!reg.is_enabled("B"));
}

/// A feature with a dependency is supported iff its own gate passes and the
/// dependency is supported: a failing dependency gate makes the dependent
/// feature unsupported even where its own gate passes.
#[test]
fn dependency_gate_composes() {
    let mut reg = WebGLExtensions::new(1);
    assert_eq!(reg.register(descriptor("base", 2, None)), Ok(()));
    assert_eq!(reg.register(descriptor("leaf", 1, Some("base"))), Ok(()));
    assert_eq!(reg.is_supported("leaf"), Ok(false));
    reg.set_version(2);
    assert_eq!(reg.is_supported("leaf"), Ok(true));
    reg.set_version(1);
    assert_eq!(reg.is_supported("leaf"), Ok(false));
}

/// Enabling twice in a row activates once: both calls succeed, the feature
/// reports enabled after either call, and the enabled set holds one record.
#[test]
fn enable_is_idempotent() {
    let mut reg = WebGLExtensions::new(1);
    assert_eq!(reg.register(descriptor("A", 1, None)), Ok(()));
    assert!(!reg.is_enabled("A"));
    assert_eq!(reg.enable("A"), Ok(()));
    assert!(reg.is_enabled("A"));
    assert_eq!(reg.enabled.len(), 1);
    assert_eq!(reg.enable("A"), Ok(()));
    assert!(reg.is_enabled("A"));
    assert_eq!(reg.enabled.len(), 1);
}

/// Queries and enables of an unregistered name fail with `NotFound`.
#[test]
fn unregistered_name_not_found() {
    let mut reg = WebGLExtensions::new(1);
    assert_eq!(reg.is_supported("missing"), Err(RegistryError::NotFound));
    assert_eq!(reg.enable("missing"), Err(RegistryError::NotFound));
    assert!(!reg.is_enabled("missing"));
}

/// Registering a duplicate name is a configuration error and leaves the
/// registry unchanged.
#[test]
fn duplicate_registration_rejected() {
    let mut reg = WebGLExtensions::new(1);
    assert_eq!(reg.register(descriptor("A", 1, None)), Ok(()));
    assert_eq!(
        reg.register(descriptor("A", 2, None)),
        Err(RegistryError::Configuration)
    );
    assert_eq!(reg.features.len(), 1);
    assert_eq!(reg.is_supported("A"), Ok(true));
}

/// A dependency must be registered first; depending on an absent feature
/// (which is also how a cycle would start) is a configuration error.
#[test]
fn missing_dependency_rejected() {
    let mut reg = WebGLExtensions::new(1);
    assert_eq!(
        reg.register(descriptor("B", 1, Some("A"))),
        Err(RegistryError::Configuration)
    );
    assert_eq!(
        reg.register(descriptor("loop", 1, Some("loop"))),
        Err(RegistryError::Configuration)
    );
    assert_eq!(reg.features.len(), 0);
}

/// Support follows a dependency chain of several links.
#[test]
fn dependency_chain() {
    let mut reg = WebGLExtensions::new(3);
    assert_eq!(reg.register(descriptor("a", 1, None)), Ok(()));
    assert_eq!(reg.register(descriptor("b", 2, Some("a"))), Ok(()));
    assert_eq!(reg.register(descriptor("c", 1, Some("b"))), Ok(()));
    assert_eq!(reg.is_supported("c"), Ok(true));
    reg.set_version(1);
    assert_eq!(reg.is_supported("c"), Ok(false));
    assert_eq!(reg.is_supported("a"), Ok(true));
}

/// The enabled set only grows: enabling one feature leaves others enabled.
#[test]
fn enabled_set_grows() {
    let mut reg = WebGLExtensions::new(1);
    assert_eq!(reg.register(descriptor("A", 1, None)), Ok(()));
    assert_eq!(reg.register(descriptor("B", 1, None)), Ok(()));
    assert_eq!(reg.enable("A"), Ok(()));
    assert_eq!(reg.enable("B"), Ok(()));
    assert!(reg.is_enabled("A"));
    assert!(reg.is_enabled("B"));
    assert_eq!(reg.enabled.len(), 2);
}
