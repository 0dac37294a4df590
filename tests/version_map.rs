use versionize::semver_codec::SemVersion;
use versionize::{VersionMap, VersionizeError};

const TYPE_A: u64 = 100;
const TYPE_B: u64 = 200;
const TYPE_STATE: u64 = 300;

#[test]
fn new_map_has_one_root() {
    let vm = VersionMap::new();
    assert_eq!(vm.latest_version(), 1);
    assert_eq!(vm.get_type_version(1, TYPE_A), 1);
}

#[test]
fn worked_map_fixture() {
    let mut vm = VersionMap::new();
    vm.new_version();
    vm.set_type_version(TYPE_A, 2);
    vm.new_version();
    vm.set_type_version(TYPE_B, 2);

    assert_eq!(vm.latest_version(), 3);

    assert_eq!(vm.get_type_version(1, TYPE_A), 1);
    assert_eq!(vm.get_type_version(1, TYPE_B), 1);
    assert_eq!(vm.get_type_version(1, TYPE_STATE), 1);

    assert_eq!(vm.get_type_version(2, TYPE_A), 2);
    assert_eq!(vm.get_type_version(2, TYPE_B), 1);
    assert_eq!(vm.get_type_version(2, TYPE_STATE), 1);

    assert_eq!(vm.get_type_version(3, TYPE_A), 2);
    assert_eq!(vm.get_type_version(3, TYPE_B), 2);
    assert_eq!(vm.get_type_version(3, TYPE_STATE), 1);
}

#[test]
fn later_override_in_same_root_wins() {
    let mut vm = VersionMap::new();
    vm.new_version();
    vm.set_type_version(TYPE_A, 2);
    vm.set_type_version(TYPE_A, 5);
    assert_eq!(vm.get_type_version(2, TYPE_A), 5);
    assert_eq!(vm.get_type_version(1, TYPE_A), 1);
}

#[test]
fn resolution_unchanged_without_override_between() {
    let mut vm = VersionMap::new();
    vm.new_version();
    vm.set_type_version(TYPE_A, 3);
    vm.new_version();
    vm.new_version();
    vm.new_version();
    vm.set_type_version(TYPE_A, 4);
    assert_eq!(vm.get_type_version(2, TYPE_A), 3);
    assert_eq!(vm.get_type_version(3, TYPE_A), 3);
    assert_eq!(vm.get_type_version(4, TYPE_A), 3);
    assert_eq!(vm.get_type_version(5, TYPE_A), 4);
}

#[test]
fn override_at_first_root() {
    let mut vm = VersionMap::new();
    vm.set_type_version(TYPE_B, 7);
    vm.new_version();
    assert_eq!(vm.get_type_version(1, TYPE_B), 7);
    assert_eq!(vm.get_type_version(2, TYPE_B), 7);
    assert_eq!(vm.get_type_version(0, TYPE_B), 1);
}

#[test]
fn compat_registry_idempotent_then_conflict() {
    let mut vm = VersionMap::new();
    assert_eq!(vm.set_crate_version("foo", "1.0.0").unwrap(), SemVersion::new(1, 0, 0));
    assert_eq!(vm.set_crate_version("foo", "1.0.0").unwrap(), SemVersion::new(1, 0, 0));
    assert_eq!(
        vm.set_crate_version("foo", "2.0.0").unwrap_err(),
        VersionizeError::MultipleVersion(
            "foo".to_string(),
            "1.0.0".to_string(),
            "2.0.0".to_string()
        )
    );
    assert_eq!(vm.get_crate_version("foo").unwrap(), SemVersion::new(1, 0, 0));
}

#[test]
fn compat_registry_parse_error() {
    let mut vm = VersionMap::new();
    match vm.set_crate_version("foo", "not-a-version") {
        Err(VersionizeError::ParseVersion(text, _)) => assert_eq!(text, "not-a-version"),
        other => panic!("unexpected {:?}", other),
    }
    assert_eq!(
        vm.get_crate_version("foo").unwrap_err(),
        VersionizeError::NotFoundName("foo".to_string())
    );
}

#[test]
fn compat_registry_unset_name() {
    let mut vm = VersionMap::new();
    vm.set_crate_version("bar", "0.3.1").unwrap();
    assert_eq!(
        vm.get_crate_version("baz").unwrap_err(),
        VersionizeError::NotFoundName("baz".to_string())
    );
    assert_eq!(vm.get_crate_version("bar").unwrap(), SemVersion::new(0, 3, 1));
}

#[test]
fn compat_registry_refuses_pre_release_and_build() {
    let mut vm = VersionMap::new();
    match vm.set_crate_version("dev", "1.0.0-beta.2") {
        Err(VersionizeError::ParseVersion(text, _)) => assert_eq!(text, "1.0.0-beta.2"),
        other => panic!("unexpected {:?}", other),
    }
    match vm.set_crate_version("dev", "1.0.0+build.7") {
        Err(VersionizeError::ParseVersion(text, _)) => assert_eq!(text, "1.0.0+build.7"),
        other => panic!("unexpected {:?}", other),
    }
    assert_eq!(
        vm.get_crate_version("dev").unwrap_err(),
        VersionizeError::NotFoundName("dev".to_string())
    );
    assert_eq!(vm.set_crate_version("dev", "1.0.0").unwrap(), SemVersion::new(1, 0, 0));
}

#[test]
fn new_root_inherits_previous_root() {
    let mut vm = VersionMap::new();
    vm.set_type_version(TYPE_A, 4);
    vm.new_version();
    assert_eq!(vm.get_type_version(2, TYPE_A), 4);
    vm.set_type_version(TYPE_B, 6);
    assert_eq!(vm.get_type_version(2, TYPE_B), 6);
    assert_eq!(vm.get_type_version(1, TYPE_B), 1);
    assert_eq!(vm.get_type_version(2, TYPE_A), 4);
}

#[test]
fn default_map_matches_new() {
    let vm = VersionMap::default();
    assert_eq!(vm.latest_version(), 1);
    assert_eq!(vm.get_type_version(1, TYPE_A), 1);
    assert!(vm.get_crate_version("foo").is_err());
}
