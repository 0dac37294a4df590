use versionize::semver_codec::SemVersion;
use versionize::primitives::{MAX_STRING_LEN, MAX_VEC_LEN};
use versionize::versionize::{
    pair_id, resolved_version, PAIR_BASE, PAIR_MEMBER_BOUND, SEMVER_TYPE_ID, STRING_TYPE_ID,
    TOO_DEEP_ID, U64_TYPE_ID,
};
use versionize::{VersionMap, Versionize, VersionizeError};

#[test]
fn nested_pairs_round_trip() {
    let mut vm = VersionMap::new();
    vm.new_version();
    let value = ((SemVersion::new(1, 2, 3), String::from("dev")), 77u64);
    let mut out: Vec<u8> = Vec::new();
    value.serialize(&mut out, &vm, 2).unwrap();
    assert_eq!(out.len(), 6 + 8 + 3 + 8);
    out.extend_from_slice(&[0xaa, 0xbb]);
    let (back, used) =
        <((SemVersion, String), u64) as Versionize>::deserialize(&out, &vm, 2).unwrap();
    assert_eq!(back, value);
    assert_eq!(used, 25);
}

#[test]
fn pair_fails_when_a_member_fails() {
    let vm = VersionMap::new();
    let value = (7u64, SemVersion::parse("1.0.0-alpha").unwrap());
    let mut out: Vec<u8> = Vec::new();
    assert_eq!(
        value.serialize(&mut out, &vm, 1).unwrap_err(),
        VersionizeError::UnsupportedVersion("1.0.0-alpha".to_string())
    );
    assert_eq!(out, vec![7, 0, 0, 0, 0, 0, 0, 0]);
    let short = vec![1u8, 0, 0, 0, 0, 0, 0, 0, 1, 0];
    assert!(<(u64, SemVersion) as Versionize>::deserialize(&short, &vm, 1).is_err());
}

#[test]
fn resolved_version_by_identity() {
    let mut vm = VersionMap::new();
    vm.new_version();
    vm.set_type_version(SEMVER_TYPE_ID, 3);
    assert_eq!(<SemVersion as Versionize>::type_id(), SEMVER_TYPE_ID);
    assert_eq!(resolved_version::<SemVersion>(&vm, 1), 1);
    assert_eq!(resolved_version::<SemVersion>(&vm, 2), 3);
    assert_eq!(resolved_version::<String>(&vm, 2), 1);
}

#[test]
fn pair_identities_follow_members() {
    let a = <(u64, String) as Versionize>::type_id();
    let b = <(String, u64) as Versionize>::type_id();
    assert_ne!(a, b);
    assert_eq!(a, pair_id(U64_TYPE_ID, STRING_TYPE_ID));
    assert_eq!(a, 102);
    assert_eq!(b, 104);
    assert!(a >= PAIR_BASE && b >= PAIR_BASE);
    let nested = <((u64, String), SemVersion) as Versionize>::type_id();
    assert_ne!(nested, a);
    assert_eq!(<(u64, String) as Versionize>::type_id(), a);
}

#[test]
fn versions_of_types() {
    assert_eq!(<SemVersion as Versionize>::version(), 1);
    assert_eq!(<String as Versionize>::version(), 1);
    assert_eq!(<(u64, Vec<u8>) as Versionize>::version(), 1);
}

#[test]
fn bound_errors_through_trait() {
    let vm = VersionMap::new();
    let mut out: Vec<u8> = vec![1, 2];
    let long = "y".repeat(MAX_STRING_LEN + 3);
    assert_eq!(
        Versionize::serialize(&long, &mut out, &vm, 1).unwrap_err(),
        VersionizeError::StringLength(MAX_STRING_LEN + 3)
    );
    let big = vec![0u8; MAX_VEC_LEN + 1];
    assert_eq!(
        Versionize::serialize(&big, &mut out, &vm, 1).unwrap_err(),
        VersionizeError::VecLength(MAX_VEC_LEN + 1)
    );
    assert_eq!(out, vec![1, 2]);
}

#[test]
fn small_scalars_round_trip() {
    let vm = VersionMap::new();
    let value = ((7u8, true), (0x1234u16, false));
    let mut out: Vec<u8> = Vec::new();
    value.serialize(&mut out, &vm, 1).unwrap();
    assert_eq!(out, vec![7, 1, 0x34, 0x12, 0]);
    let (back, used) = <((u8, bool), (u16, bool)) as Versionize>::deserialize(&out, &vm, 1).unwrap();
    assert_eq!(back, value);
    assert_eq!(used, 5);
}

#[test]
fn bool_rejects_other_bytes() {
    let vm = VersionMap::new();
    assert!(matches!(
        <bool as Versionize>::deserialize(&[2], &vm, 1),
        Err(VersionizeError::Deserialize(_))
    ));
    assert!(<bool as Versionize>::deserialize(&[], &vm, 1).is_err());
    assert!(<u16 as Versionize>::deserialize(&[1], &vm, 1).is_err());
    assert!(<u8 as Versionize>::deserialize(&[], &vm, 1).is_err());
}

#[test]
fn pair_identities_do_not_collide() {
    let small_pair = <(u8, u16) as Versionize>::type_id();
    let mixed_pair = <(bool, Vec<u8>) as Versionize>::type_id();
    assert_eq!(small_pair, 240);
    assert_eq!(mixed_pair, 188);
    assert_ne!(small_pair, mixed_pair);
    let nested = <((u64, String), SemVersion) as Versionize>::type_id();
    let flat = <(u16, u16) as Versionize>::type_id();
    assert_eq!(nested, 10674);
    assert_eq!(flat, 267);
    assert_ne!(nested, flat);
    let mut seen: Vec<u64> = Vec::new();
    for a in 1u64..=8 {
        for b in 1u64..=8 {
            let id = pair_id(a, b);
            assert!(id >= PAIR_BASE && id != TOO_DEEP_ID);
            assert!(!seen.contains(&id));
            seen.push(id);
        }
    }
}

#[test]
fn pair_identity_of_too_deep_members() {
    assert_eq!(pair_id(PAIR_MEMBER_BOUND, 1), TOO_DEEP_ID);
    assert_eq!(pair_id(1, PAIR_MEMBER_BOUND), TOO_DEEP_ID);
    assert_ne!(pair_id(PAIR_MEMBER_BOUND - 1, PAIR_MEMBER_BOUND - 1), TOO_DEEP_ID);
}
