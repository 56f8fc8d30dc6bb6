//! The serializer and parser as mutual inverses, the exact canonical forms,
//! and the full error taxonomy on malformed input.

use typenaming::{
    new_semver_version, split_string, ParseError, Token, TypeNameData, Version, VersionError,
};

fn version_with(major: u64, minor: u64, patch: u64, pre: &str, build: &str) -> Version {
    Version {
        major,
        minor,
        patch,
        pre: pre.to_string(),
        build: build.to_string(),
    }
}

fn same_tree(lhs: &TypeNameData, rhs: &TypeNameData) {
    assert_eq!(lhs.name(), rhs.name());
    assert_eq!(lhs.crate_name(), rhs.crate_name());
    assert_eq!(lhs.crate_module(), rhs.crate_module());
    assert_eq!(lhs.crate_version(), rhs.crate_version());
    assert_eq!(lhs.rustc_version(), rhs.rustc_version());
    assert_eq!(lhs.generics().len(), rhs.generics().len());
    for (l, r) in lhs.generics().iter().zip(rhs.generics().iter()) {
        same_tree(l, r);
    }
}

#[test]
fn scenario_flat_line() {
    let info = TypeNameData::new(
        "Test".to_string(),
        Some("testing".to_string()),
        Some("test_module".to_string()),
        Some(Version::new(1, 2, 3)),
        Some(version_with(2, 0, 1, "ieie", "ieieiei")),
        vec![],
    );
    let line = info.to_one_line_string();
    assert_eq!(
        line,
        "Test, Crate=testing, Module=test_module, Version=1.2.3, Rustc=2.0.1-ieie+ieieiei"
    );
    let back = TypeNameData::try_from_one_line_string(&line).unwrap();
    same_tree(&back, &info);
}

#[test]
fn scenario_nested_line() {
    let inner = TypeNameData::new(
        "Test".to_string(),
        Some("testing".to_string()),
        Some("test_module".to_string()),
        Some(Version::new(1, 2, 3)),
        Some(version_with(2, 0, 1, "ieie", "ieieiei")),
        vec![],
    );
    let info = TypeNameData::new(
        "Gen".to_string(),
        Some("generic".to_string()),
        Some("test_module".to_string()),
        Some(Version::new(1, 2, 3)),
        Some(version_with(2, 0, 1, "ieie", "ieieiei")),
        vec![inner],
    );
    let line = info.to_one_line_string();
    assert_eq!(
        line,
        "Gen<Test, Crate=testing, Module=test_module, Version=1.2.3, Rustc=2.0.1-ieie+ieieiei>, Crate=generic, Module=test_module, Version=1.2.3, Rustc=2.0.1-ieie+ieieiei"
    );
    let back = TypeNameData::try_from_one_line_string(&line).unwrap();
    same_tree(&back, &info);
}

#[test]
fn empty_generics_leave_no_brackets() {
    let info = TypeNameData::new(
        "Plain".to_string(),
        Some("c".to_string()),
        Some("m".to_string()),
        Some(Version::new(1, 0, 0)),
        Some(Version::new(2, 0, 0)),
        vec![],
    );
    let line = info.to_one_line_string();
    assert!(!line.contains('<'));
    assert!(!line.contains('>'));
}

#[test]
fn absent_fields_leave_no_trace() {
    let info = TypeNameData::new("Test".to_string(), None, None, None, None, vec![]);
    assert_eq!(info.to_one_line_string(), "Test");
}

#[test]
fn generics_keep_their_order() {
    let child = |name: &str| {
        TypeNameData::new(
            name.to_string(),
            Some("k".to_string()),
            None,
            Some(Version::new(1, 0, 0)),
            Some(Version::new(1, 0, 0)),
            vec![],
        )
    };
    let info = TypeNameData::new(
        "Triple".to_string(),
        None,
        None,
        None,
        None,
        vec![child("A"), child("B"), child("C")],
    );
    let line = info.to_one_line_string();
    assert_eq!(
        line,
        "Triple<A, Crate=k, Version=1.0.0, Rustc=1.0.0; B, Crate=k, Version=1.0.0, Rustc=1.0.0; C, Crate=k, Version=1.0.0, Rustc=1.0.0>"
    );
    let back = TypeNameData::try_from_one_line_string(&line).unwrap();
    assert_eq!(back.generics().len(), 3);
    assert_eq!(back.generics()[0].name(), "A");
    assert_eq!(back.generics()[1].name(), "B");
    assert_eq!(back.generics()[2].name(), "C");
}

#[test]
fn roundtrip_with_pre_and_build() {
    let info = TypeNameData::new(
        "X".to_string(),
        Some("c".to_string()),
        None,
        Some(version_with(1, 2, 3, "alpha.1", "build-5")),
        Some(version_with(18446744073709551615, 0, 0, "", "meta")),
        vec![],
    );
    let line = info.to_one_line_string();
    assert_eq!(
        line,
        "X, Crate=c, Version=1.2.3-alpha.1+build-5, Rustc=18446744073709551615.0.0+meta"
    );
    let back = TypeNameData::try_from_one_line_string(&line).unwrap();
    same_tree(&back, &info);
}

#[test]
fn duplicate_crate_is_an_error() {
    let r = TypeNameData::try_from_one_line_string("X, Crate=a, Crate=b");
    match r {
        Err((ParseError::CrateNameSetTwice, rem)) => assert_eq!(rem, ""),
        other => panic!("expected CrateNameSetTwice, got {other:?}"),
    }
}

#[test]
fn duplicate_module_version_rustc_are_errors() {
    assert!(matches!(
        TypeNameData::try_from_one_line_string("X, Module=a, Module=b"),
        Err((ParseError::CrateModuleSetTwice, _))
    ));
    assert!(matches!(
        TypeNameData::try_from_one_line_string("X, Version=1.0.0, Version=2.0.0"),
        Err((ParseError::CrateVersionSetTwice, _))
    ));
    assert!(matches!(
        TypeNameData::try_from_one_line_string("X, Rustc=1.0.0, Rustc=2.0.0"),
        Err((ParseError::RustcVersionSetTwice, _))
    ));
}

#[test]
fn marker_with_leading_text_is_an_error() {
    assert!(matches!(
        TypeNameData::try_from_one_line_string("X, x Crate=a"),
        Err((ParseError::FailedToParseCrateName, _))
    ));
    assert!(matches!(
        TypeNameData::try_from_one_line_string("X, x Module=a"),
        Err((ParseError::FailedToParseCrateModule, _))
    ));
    assert!(matches!(
        TypeNameData::try_from_one_line_string("X, x Version=1.0.0"),
        Err((ParseError::FailedToParseCrateVersion, _))
    ));
    assert!(matches!(
        TypeNameData::try_from_one_line_string("X, x Rustc=1.0.0"),
        Err((ParseError::FailedToParseRustcVersion, _))
    ));
}

#[test]
fn unmatched_close_is_an_error() {
    assert!(matches!(
        TypeNameData::try_from_one_line_string("X>"),
        Err((ParseError::UnexpectedGenericEnd, _))
    ));
}

#[test]
fn unmatched_open_is_an_error() {
    // input ends before the `>` that would close the block
    assert!(matches!(
        TypeNameData::try_from_one_line_string("X<Y"),
        Err((ParseError::UnexpectedGenericEnd, _))
    ));
    assert!(matches!(
        TypeNameData::try_from_one_line_string("Gen<Test, Crate=a, Version=1.0.0, Rustc=1.0.0"),
        Err((ParseError::UnexpectedGenericEnd, _))
    ));
    // input ends before the nested descriptor even starts
    assert!(matches!(
        TypeNameData::try_from_one_line_string("X<"),
        Err((ParseError::TypeNameNotFound, _))
    ));
}

#[test]
fn misplaced_open_and_separator_are_errors() {
    assert!(matches!(
        TypeNameData::try_from_one_line_string("X,<Y>"),
        Err((ParseError::UnexpectedGenericStart, _))
    ));
    assert!(matches!(
        TypeNameData::try_from_one_line_string("X;Y"),
        Err((ParseError::UnexpectedGenericGenericNext, _))
    ));
}

#[test]
fn trailing_garbage_is_an_error() {
    assert!(matches!(
        TypeNameData::try_from_one_line_string("X, garbage-field=1"),
        Err((ParseError::UnexpectedData, _))
    ));
}

#[test]
fn empty_input_has_no_name() {
    assert!(matches!(
        TypeNameData::try_from_one_line_string(""),
        Err((ParseError::TypeNameNotFound, _))
    ));
    assert!(matches!(
        TypeNameData::try_from_one_line_string("   "),
        Err((ParseError::TypeNameNotFound, _))
    ));
}

#[test]
fn bad_versions_keep_their_cause() {
    assert!(matches!(
        TypeNameData::try_from_one_line_string("X, Version=abc"),
        Err((ParseError::FailedToParseCrateVersionSemver(VersionError::MalformedCore), _))
    ));
    assert!(matches!(
        TypeNameData::try_from_one_line_string("X, Rustc=1.2"),
        Err((ParseError::FailedToParseRustcVersionSemver(VersionError::MalformedCore), _))
    ));
    assert!(matches!(
        TypeNameData::try_from_one_line_string("X, Version=01.2.3"),
        Err((ParseError::FailedToParseCrateVersionSemver(VersionError::MalformedCore), _))
    ));
    assert!(matches!(
        TypeNameData::try_from_one_line_string("X, Version=99999999999999999999.0.0"),
        Err((ParseError::FailedToParseCrateVersionSemver(VersionError::NumberOverflow), _))
    ));
    assert!(matches!(
        TypeNameData::try_from_one_line_string("X, Version=1.2.3-"),
        Err((ParseError::FailedToParseCrateVersionSemver(VersionError::MalformedPrerelease), _))
    ));
    assert!(matches!(
        TypeNameData::try_from_one_line_string("X, Version=1.2.3+"),
        Err((ParseError::FailedToParseCrateVersionSemver(VersionError::MalformedBuild), _))
    ));
}

#[test]
fn leftovers_keep_the_partial_tree() {
    // once crate name and both versions are set, parsing stops early, and a
    // field after that point is reported as a leftover with the valid tree
    let r = TypeNameData::try_from_one_line_string(
        "X, Crate=a, Version=1.0.0, Rustc=1.0.0, Module=m",
    );
    match r {
        Err((ParseError::RemainingToken(d), rem)) => {
            assert_eq!(d.name(), "X");
            assert_eq!(d.crate_name().as_deref(), Some("a"));
            assert_eq!(rem, ", Module=m");
        },
        other => panic!("expected RemainingToken, got {other:?}"),
    }
}

#[test]
fn surrounding_whitespace_is_trimmed() {
    let back = TypeNameData::try_from_one_line_string("  X  ,  Crate=  a  ").unwrap();
    assert_eq!(back.name(), "X");
    assert_eq!(back.crate_name().as_deref(), Some("a"));
}

#[test]
fn tokens_split_at_every_delimiter() {
    let mut tokens: Vec<Token> = Vec::new();
    split_string("A<B; C>, Crate=x", &mut tokens);
    assert_eq!(tokens.len(), 8);
    assert!(matches!(&tokens[0], Token::Text(s) if s == "A"));
    assert!(matches!(&tokens[1], Token::GenericStart));
    assert!(matches!(&tokens[2], Token::Text(s) if s == "B"));
    assert!(matches!(&tokens[3], Token::GenericNext));
    assert!(matches!(&tokens[4], Token::Text(s) if s == "C"));
    assert!(matches!(&tokens[5], Token::GenericEnd));
    assert!(matches!(&tokens[6], Token::Comma));
    assert!(matches!(&tokens[7], Token::Text(s) if s == "Crate=x"));
}

#[test]
fn version_canonical_forms() {
    assert_eq!(Version::new(1, 2, 3).to_version_string(), "1.2.3");
    assert_eq!(Version::new(0, 0, 0).to_version_string(), "0.0.0");
    assert_eq!(
        version_with(10, 20, 30, "rc.1", "sha-abc").to_version_string(),
        "10.20.30-rc.1+sha-abc"
    );
    assert_eq!(
        version_with(18446744073709551615, 0, 1, "", "").to_version_string(),
        "18446744073709551615.0.1"
    );
}

#[test]
fn new_semver_version_reads_its_parts() {
    assert_eq!(new_semver_version("1", "2", "3", ""), Version::new(1, 2, 3));
    assert_eq!(
        new_semver_version("0", "04", "2", "alpha.1"),
        version_with(0, 4, 2, "alpha.1", "")
    );
    // a leading plus sign is accepted, as u64 parsing accepts it
    assert_eq!(new_semver_version("+7", "0", "1", ""), Version::new(7, 0, 1));
}

#[test]
fn values_may_contain_extra_markers() {
    // the first recognized marker wins, everything after it is the value
    let back = TypeNameData::try_from_one_line_string("X, Crate=aCrate=b").unwrap();
    assert_eq!(back.crate_name().as_deref(), Some("aCrate=b"));
    // a module value containing the crate marker is matched as a crate
    // field with leading text instead
    assert!(matches!(
        TypeNameData::try_from_one_line_string("X, Module=aCrate=b"),
        Err((ParseError::FailedToParseCrateName, _))
    ));
}
