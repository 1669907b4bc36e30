use cargo_upgrade::requirement::{
    find_locked_version, old_version_compatible, upgrade_requirement, LockedPackage,
    RequirementError,
};

fn v(text: &str) -> semver::Version {
    semver::Version::parse(text).unwrap()
}

#[test]
fn upgrade_keeps_two_components() {
    assert_eq!(upgrade_requirement("1.2", &v("1.5.0")), Ok(Some("1.5".to_string())));
}

#[test]
fn upgrade_keeps_one_component_unchanged() {
    assert_eq!(upgrade_requirement("1", &v("1.9.0")), Ok(None));
}

#[test]
fn upgrade_moves_major() {
    assert_eq!(upgrade_requirement("0.4", &v("0.5.1")), Ok(Some("0.5".to_string())));
    assert_eq!(upgrade_requirement("1.0.0", &v("2.3.4")), Ok(Some("2.3.4".to_string())));
}

#[test]
fn upgrade_keeps_explicit_operators() {
    assert_eq!(upgrade_requirement("^1.0", &v("2.1.0")), Ok(Some("^2.1".to_string())));
    assert_eq!(upgrade_requirement("~1.0.0", &v("1.2.3")), Ok(Some("~1.2.3".to_string())));
    assert_eq!(upgrade_requirement("=1.0.0", &v("1.2.0")), Ok(Some("=1.2.0".to_string())));
    assert_eq!(upgrade_requirement("1.*", &v("2.4.0")), Ok(Some("2.*".to_string())));
}

#[test]
fn upgrade_star_needs_no_change() {
    assert_eq!(upgrade_requirement("*", &v("3.0.0")), Ok(None));
}

#[test]
fn upgrade_refuses_bounds() {
    assert_eq!(upgrade_requirement(">=1.0", &v("1.5.0")), Err(RequirementError::Unsupported));
    assert_eq!(upgrade_requirement("<2", &v("1.5.0")), Err(RequirementError::Unsupported));
}

#[test]
fn upgrade_refuses_unparsable() {
    assert_eq!(upgrade_requirement("abc", &v("1.5.0")), Err(RequirementError::Unparsable));
}

#[test]
fn upgrade_twice_is_stable() {
    let once = upgrade_requirement("1.2", &v("1.5.0")).unwrap().unwrap();
    assert_eq!(upgrade_requirement(&once, &v("1.5.0")), Ok(None));
}

#[test]
fn compatible_checks() {
    assert!(old_version_compatible("1", "1.9.0"));
    assert!(old_version_compatible("1.2", "1.5.0"));
    assert!(!old_version_compatible("1.2", "2.0.0"));
    assert!(!old_version_compatible("1.2", "1.5"));
    assert!(!old_version_compatible("bad", "1.5.0"));
}

#[test]
fn locked_version_first_match_without_build() {
    let locked = vec![
        LockedPackage { name: "other".to_string(), version: v("1.4.0") },
        LockedPackage { name: "serde".to_string(), version: v("0.9.0") },
        LockedPackage { name: "serde".to_string(), version: v("1.0.3+build.7") },
        LockedPackage { name: "serde".to_string(), version: v("1.0.9") },
    ];
    assert_eq!(find_locked_version("serde", "1.0", &locked), Some("1.0.3".to_string()));
    assert_eq!(find_locked_version("serde", "2", &locked), None);
    assert_eq!(find_locked_version("serde", "bad req", &locked), None);
    assert_eq!(find_locked_version("missing", "1", &locked), None);
}
