//! The one-line form embedded as a scalar inside a JSON document: exactly
//! what serializing a descriptor through serde produces and consumes.

use typenaming::{TypeNameData, Version};

fn version_with(major: u64, minor: u64, patch: u64, pre: &str, build: &str) -> Version {
    Version {
        major,
        minor,
        patch,
        pre: pre.to_string(),
        build: build.to_string(),
    }
}

fn simple_example() -> TypeNameData {
    TypeNameData::new(
        "Test".to_string(),
        Some("testing".to_string()),
        Some("test_module".to_string()),
        Some(Version::new(1, 2, 3)),
        Some(version_with(2, 0, 1, "ieie", "ieieiei")),
        vec![],
    )
}

fn generic_example() -> TypeNameData {
    TypeNameData::new(
        "Gen".to_string(),
        Some("generic".to_string()),
        Some("test_module".to_string()),
        Some(Version::new(1, 2, 3)),
        Some(version_with(2, 0, 1, "ieie", "ieieiei")),
        vec![simple_example()],
    )
}

fn generic2_example() -> TypeNameData {
    TypeNameData::new(
        "Gen".to_string(),
        Some("generic2".to_string()),
        Some("test_module".to_string()),
        Some(Version::new(1, 2, 3)),
        Some(version_with(33, 22, 11, "ieie", "ieieiei")),
        vec![simple_example(), generic_example(), simple_example()],
    )
}

fn asserting(lhs: &TypeNameData, rhs: &TypeNameData) {
    assert_eq!(lhs.crate_name(), rhs.crate_name());
    assert_eq!(lhs.name(), rhs.name());
    assert_eq!(lhs.generics().len(), rhs.generics().len());
    assert_eq!(lhs.crate_version(), rhs.crate_version());
    assert_eq!(lhs.rustc_version(), rhs.rustc_version());
    for (lhs, rhs) in lhs.generics().iter().zip(rhs.generics().iter()) {
        asserting(lhs, rhs);
    }
}

#[test]
fn simple_serialize() {
    let serialized = serde_json::to_string_pretty(&simple_example().to_one_line_string()).unwrap();
    assert_eq!(
        serialized,
        "\"Test, Crate=testing, Module=test_module, Version=1.2.3, Rustc=2.0.1-ieie+ieieiei\""
    );
}

#[test]
fn simple_deserialize() {
    let info = simple_example();
    let serialized = serde_json::to_string_pretty(&info.to_one_line_string()).unwrap();
    let line: String = serde_json::from_str(&serialized).unwrap();
    let deserialized = TypeNameData::try_from_one_line_string(&line).unwrap();
    asserting(&deserialized, &info);
}

#[test]
fn generic_serialize() {
    let serialized = serde_json::to_string_pretty(&generic_example().to_one_line_string()).unwrap();
    assert_eq!(
        serialized,
        "\"Gen<Test, Crate=testing, Module=test_module, Version=1.2.3, Rustc=2.0.1-ieie+ieieiei>, Crate=generic, Module=test_module, Version=1.2.3, Rustc=2.0.1-ieie+ieieiei\""
    );
}

#[test]
fn generic_deserialize() {
    let info = generic_example();
    let serialized = serde_json::to_string_pretty(&info.to_one_line_string()).unwrap();
    let line: String = serde_json::from_str(&serialized).unwrap();
    let deserialized = TypeNameData::try_from_one_line_string(&line).unwrap();
    asserting(&deserialized, &info);
}

#[test]
fn generic2_serialize() {
    let serialized = serde_json::to_string_pretty(&generic2_example().to_one_line_string()).unwrap();
    assert_eq!(
        serialized,
        "\"Gen<Test, Crate=testing, Module=test_module, Version=1.2.3, Rustc=2.0.1-ieie+ieieiei; Gen<Test, Crate=testing, Module=test_module, Version=1.2.3, Rustc=2.0.1-ieie+ieieiei>, Crate=generic, Module=test_module, Version=1.2.3, Rustc=2.0.1-ieie+ieieiei; Test, Crate=testing, Module=test_module, Version=1.2.3, Rustc=2.0.1-ieie+ieieiei>, Crate=generic2, Module=test_module, Version=1.2.3, Rustc=33.22.11-ieie+ieieiei\"");
}

#[test]
fn generic2_deserialize() {
    let info = generic2_example();
    let serialized = serde_json::to_string_pretty(&info.to_one_line_string()).unwrap();
    let line: String = serde_json::from_str(&serialized).unwrap();
    let deserialized = TypeNameData::try_from_one_line_string(&line).unwrap();
    asserting(&deserialized, &info);
}
