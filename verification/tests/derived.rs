//! Descriptors of concrete type shapes: plain, generic, behind references,
//! and with a fixed crate version.

use typenaming::{resolve_type_info, AmbientInfo, TypeName, TypeNameArguments, TypeNameable, Version};

fn no_args() -> TypeNameArguments {
    TypeNameArguments {
        name: None,
        crate_name: None,
        crate_module: None,
        crate_version: None,
        rustc_version: None,
        default_to_none: false,
    }
}

fn ambient(crate_name: &str) -> AmbientInfo {
    AmbientInfo {
        crate_name: crate_name.to_string(),
        crate_module: "derived".to_string(),
        crate_version: Version::new(0, 1, 0),
        rustc_version: Some(Version::new(1, 70, 0)),
    }
}

#[test]
fn simple_simple() {
    for crate_name in ["typenaming-derive", "type-name-derive"] {
        let info = resolve_type_info("B".to_string(), no_args(), ambient(crate_name), vec![]);
        assert_eq!("B", info.name());
        assert_eq!(Some(crate_name), info.crate_name().as_deref());
        assert_eq!(0, info.generics().len());
    }
}

#[test]
fn generic_simple() {
    for crate_name in ["typenaming", "typenaming-derive", "type-name-derive"] {
        let info = resolve_type_info(
            "A".to_string(),
            no_args(),
            ambient(crate_name),
            vec![<u32 as TypeNameable>::type_info()],
        );
        assert_eq!("A", info.name());
        assert_eq!(Some(crate_name), info.crate_name().as_deref());
        assert_eq!(1, info.generics().len());
        assert_eq!("u32", info.generics()[0].name());
        assert_eq!(Some("core"), info.generics()[0].crate_name().as_deref());
    }
}

#[test]
fn two() {
    let info = resolve_type_info(
        "A".to_string(),
        no_args(),
        ambient("typenaming"),
        vec![<u32 as TypeNameable>::type_info(), <bool as TypeNameable>::type_info()],
    );
    assert_eq!("A", info.name());
    assert_eq!(Some("typenaming"), info.crate_name().as_deref());
    assert_eq!(2, info.generics().len());
    assert_eq!("u32", info.generics()[0].name());
    assert_eq!(Some("core"), info.generics()[0].crate_name().as_deref());
    assert_eq!("bool", info.generics()[1].name());
    assert_eq!(Some("core"), info.generics()[1].crate_name().as_deref());
}

#[test]
fn lifetime_simple() {
    for crate_name in ["typenaming", "type-name-derive"] {
        let info = resolve_type_info(
            "A".to_string(),
            no_args(),
            ambient(crate_name),
            vec![<&u32 as TypeNameable>::type_info()],
        );
        assert_eq!("A", info.name());
        assert_eq!(Some(crate_name), info.crate_name().as_deref());
        assert_eq!(1, info.generics().len());
        assert_eq!("u32", info.generics()[0].name());
        assert_eq!(Some("core"), info.generics()[0].crate_name().as_deref());
    }
}

#[test]
fn complex_complex() {
    for crate_name in ["typenaming", "type-name-derive"] {
        let info = resolve_type_info(
            "A".to_string(),
            no_args(),
            ambient(crate_name),
            vec![<&u32 as TypeNameable>::type_info(), <&bool as TypeNameable>::type_info()],
        );
        assert_eq!("A", info.name());
        assert_eq!(Some(crate_name), info.crate_name().as_deref());
        assert_eq!(2, info.generics().len());
        assert_eq!("u32", info.generics()[0].name());
        assert_eq!(Some("core"), info.generics()[0].crate_name().as_deref());
        assert_eq!("bool", info.generics()[1].name());
        assert_eq!(Some("core"), info.generics()[1].crate_name().as_deref());
    }
}

#[test]
fn lib_check_crate_version_number() {
    for crate_name in ["typenaming-example-base", "type-name-example-base"] {
        let info = resolve_type_info(
            "TestVersionNumber".to_string(),
            no_args(),
            AmbientInfo {
                crate_name: crate_name.to_string(),
                crate_module: "lib".to_string(),
                crate_version: Version::new(0, 4, 2),
                rustc_version: Some(Version::new(1, 70, 0)),
            },
            vec![],
        );
        assert_eq!("TestVersionNumber", info.name());
        assert_eq!(crate_name, info.crate_name().as_deref().unwrap());
        assert_eq!(&Some(Version::new(0, 4, 2)), info.crate_version());
        assert_eq!(0, info.generics().len());
    }
}

#[test]
fn trait_impls_for_core_types() {
    let a = <u32 as TypeName>::type_name_static();
    assert_eq!(a.name(), "u32");
    assert_eq!(a.crate_name().as_deref(), Some("core"));
    assert_eq!(a.crate_module().as_deref(), Some("core"));
    assert_eq!(a.crate_version(), &Some(Version::new(1, 0, 0)));
    let b = true.type_name_of();
    assert_eq!(b.name(), "bool");
    assert_eq!(b.rustc_version(), &Some(Version::new(1, 0, 0)));
    assert_eq!(b.generics().len(), 0);
}
