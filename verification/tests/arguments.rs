//! Resolving a descriptor from configured arguments and ambient build
//! information, one argument at a time.

use typenaming::{resolve_type_info, AmbientInfo, TypeNameArguments, Version};

fn no_args() -> TypeNameArguments {
    TypeNameArguments {
        name: None,
        crate_name: None,
        crate_module: None,
        crate_version: None,
        rustc_version: None,
        default_to_none: false,
    }
}

fn ambient(crate_name: &str) -> AmbientInfo {
    AmbientInfo {
        crate_name: crate_name.to_string(),
        crate_module: "arguments".to_string(),
        crate_version: Version::new(0, 1, 0),
        rustc_version: Some(Version::new(1, 70, 0)),
    }
}

#[test]
fn arguments_arguments_no() {
    for crate_name in ["typenaming", "typenaming-derive", "type-name"] {
        let info = resolve_type_info("B".to_string(), no_args(), ambient(crate_name), vec![]);
        assert_eq!("B", info.name());
        assert_eq!(Some(crate_name), info.crate_name().as_deref());
        assert_eq!(0, info.generics().len());
    }
}

#[test]
fn arguments_arguments_type_name() {
    for crate_name in ["typenaming", "typenaming-derive", "type-name"] {
        let args = TypeNameArguments { name: Some("type_renamed".to_string()), ..no_args() };
        let info = resolve_type_info("B".to_string(), args, ambient(crate_name), vec![]);
        assert_eq!("type_renamed", info.name());
        assert_eq!(Some(crate_name), info.crate_name().as_deref());
        assert_eq!(0, info.generics().len());
    }
}

#[test]
fn arguments_arguments_crate_name() {
    let args = TypeNameArguments { crate_name: Some("crate_renamed".to_string()), ..no_args() };
    let info = resolve_type_info("B".to_string(), args, ambient("typenaming"), vec![]);
    assert_eq!("B", info.name());
    assert_eq!(Some("crate_renamed"), info.crate_name().as_deref());
    assert_eq!(0, info.generics().len());
}

#[test]
fn arguments_arguments_crate_module() {
    for crate_name in ["typenaming", "typenaming-derive"] {
        let args = TypeNameArguments { crate_module: Some("module_renamed".to_string()), ..no_args() };
        let info = resolve_type_info("B".to_string(), args, ambient(crate_name), vec![]);
        assert_eq!("B", info.name());
        assert_eq!(Some(crate_name), info.crate_name().as_deref());
        assert_eq!(Some("module_renamed"), info.crate_module().as_deref());
        assert_eq!(0, info.generics().len());
    }
}

#[test]
fn arguments_arguments_crate_version() {
    for crate_name in ["typenaming", "typenaming-derive", "type-name"] {
        let args = TypeNameArguments { crate_version: Some("1.2.3".to_string()), ..no_args() };
        let info = resolve_type_info("B".to_string(), args, ambient(crate_name), vec![]);
        assert_eq!("B", info.name());
        assert_eq!(Some(crate_name), info.crate_name().as_deref());
        assert_eq!(&Some(Version::new(1, 2, 3)), info.crate_version());
        assert_eq!(0, info.generics().len());
    }
}

#[test]
fn arguments_arguments_rustc_version() {
    for crate_name in ["typenaming", "typenaming-derive", "type-name"] {
        let args = TypeNameArguments { rustc_version: Some("1.2.3".to_string()), ..no_args() };
        let info = resolve_type_info("B".to_string(), args, ambient(crate_name), vec![]);
        assert_eq!("B", info.name());
        assert_eq!(Some(crate_name), info.crate_name().as_deref());
        assert_eq!(&Some(Version::new(1, 2, 3)), info.rustc_version());
        assert_eq!(0, info.generics().len());
    }
}

#[test]
fn arguments_arguments_default_to_none() {
    let args = TypeNameArguments { default_to_none: true, ..no_args() };
    let info = resolve_type_info("B".to_string(), args, ambient("typenaming-derive"), vec![]);
    assert_eq!("B", info.name());
    assert_eq!(None, info.crate_name().as_deref());
    assert_eq!(&None, info.crate_module());
    assert_eq!(&None, info.crate_version());
    assert_eq!(&None, info.rustc_version());
    assert_eq!(0, info.generics().len());
}

#[test]
fn arguments_arguments_default_to_none_crate_version() {
    let args = TypeNameArguments {
        default_to_none: true,
        crate_version: Some("1.2.3".to_string()),
        ..no_args()
    };
    let info = resolve_type_info("B".to_string(), args, ambient("typenaming-derive"), vec![]);
    assert_eq!("B", info.name());
    assert_eq!(None, info.crate_name().as_deref());
    assert_eq!(&Some(Version::new(1, 2, 3)), info.crate_version());
    assert_eq!(&None, info.rustc_version());
    assert_eq!(0, info.generics().len());
}

#[test]
fn arguments_arguments_default_to_none_rustc_version() {
    let args = TypeNameArguments {
        default_to_none: true,
        rustc_version: Some("1.2.3".to_string()),
        ..no_args()
    };
    let info = resolve_type_info("B".to_string(), args, ambient("typenaming-derive"), vec![]);
    assert_eq!("B", info.name());
    assert_eq!(None, info.crate_name().as_deref());
    assert_eq!(&Some(Version::new(1, 2, 3)), info.rustc_version());
    assert_eq!(&None, info.crate_version());
    assert_eq!(0, info.generics().len());
}

#[test]
fn arguments_arguments_default_to_none_crate_name() {
    let args = TypeNameArguments {
        default_to_none: true,
        crate_name: Some("test".to_string()),
        ..no_args()
    };
    let info = resolve_type_info("B".to_string(), args, ambient("typenaming-derive"), vec![]);
    assert_eq!("B", info.name());
    assert_eq!(Some("test"), info.crate_name().as_deref());
    assert_eq!(&None, info.crate_version());
    assert_eq!(&None, info.rustc_version());
    assert_eq!(0, info.generics().len());
}

#[test]
fn arguments_arguments_default_to_none_crate_module() {
    let args = TypeNameArguments {
        default_to_none: true,
        crate_module: Some("test".to_string()),
        ..no_args()
    };
    let info = resolve_type_info("B".to_string(), args, ambient("typenaming-derive"), vec![]);
    assert_eq!("B", info.name());
    assert_eq!(None, info.crate_name().as_deref());
    assert_eq!(Some("test"), info.crate_module().as_deref());
    assert_eq!(&None, info.crate_version());
    assert_eq!(&None, info.rustc_version());
    assert_eq!(0, info.generics().len());
}
