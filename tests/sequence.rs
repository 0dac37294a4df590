use versionize::primitives::MAX_VEC_LEN;
use versionize::semver_codec::SemVersion;
use versionize::sequence::VersionedVec;
use versionize::{VersionMap, Versionize, VersionizeError};

#[test]
fn sequence_of_strings_round_trip() {
    let vm = VersionMap::new();
    let v = VersionedVec { items: vec![String::from("a"), String::from(""), String::from("xyz")] };
    let mut out: Vec<u8> = Vec::new();
    v.serialize(&mut out, &vm, 1).unwrap();
    assert_eq!(out.len(), 8 + (8 + 1) + 8 + (8 + 3));
    assert_eq!(&out[..8], &[3, 0, 0, 0, 0, 0, 0, 0]);
    out.push(0xee);
    let (back, used) = <VersionedVec<String> as Versionize>::deserialize(&out, &vm, 1).unwrap();
    assert_eq!(back, v);
    assert_eq!(used, out.len() - 1);
}

#[test]
fn sequence_of_bytes_matches_byte_vector() {
    let vm = VersionMap::new();
    let bytes: Vec<u8> = vec![4, 5, 6];
    let mut a: Vec<u8> = Vec::new();
    let mut b: Vec<u8> = Vec::new();
    bytes.serialize(&mut a, &vm, 1).unwrap();
    VersionedVec { items: bytes.clone() }.serialize(&mut b, &vm, 1).unwrap();
    assert_eq!(a, b);
}

#[test]
fn empty_sequence() {
    let vm = VersionMap::new();
    let v: VersionedVec<u64> = VersionedVec { items: Vec::new() };
    let mut out: Vec<u8> = Vec::new();
    v.serialize(&mut out, &vm, 1).unwrap();
    assert_eq!(out, vec![0; 8]);
    assert_eq!(<VersionedVec<u64> as Versionize>::deserialize(&out, &vm, 1).unwrap(), (v, 8));
}

#[test]
fn sequence_too_long() {
    let vm = VersionMap::new();
    let v = VersionedVec { items: vec![0u8; MAX_VEC_LEN + 1] };
    let mut out: Vec<u8> = vec![9];
    assert_eq!(
        v.serialize(&mut out, &vm, 1).unwrap_err(),
        VersionizeError::VecLength(MAX_VEC_LEN + 1)
    );
    assert_eq!(out, vec![9]);
    let mut input: Vec<u8> = Vec::new();
    versionize::primitives::write_u64(&mut input, (MAX_VEC_LEN + 2) as u64);
    assert_eq!(
        <VersionedVec<u8> as Versionize>::deserialize(&input, &vm, 1).unwrap_err(),
        VersionizeError::VecLength(MAX_VEC_LEN + 2)
    );
}

#[test]
fn sequence_element_failure_keeps_earlier_bytes() {
    let vm = VersionMap::new();
    let v = VersionedVec {
        items: vec![SemVersion::new(1, 0, 0), SemVersion::parse("2.0.0-rc").unwrap()],
    };
    let mut out: Vec<u8> = Vec::new();
    assert_eq!(
        v.serialize(&mut out, &vm, 1).unwrap_err(),
        VersionizeError::UnsupportedVersion("2.0.0-rc".to_string())
    );
    assert_eq!(out, vec![2, 0, 0, 0, 0, 0, 0, 0, 1, 0, 0, 0, 0, 0]);
}

#[test]
fn sequence_truncated_element() {
    let vm = VersionMap::new();
    let input = vec![2u8, 0, 0, 0, 0, 0, 0, 0, 1, 0, 0, 0, 0, 0, 0, 0, 5];
    assert!(<VersionedVec<u64> as Versionize>::deserialize(&input, &vm, 1).is_err());
}

#[test]
fn sequence_identity_differs_from_pairs() {
    let s = <VersionedVec<u8> as Versionize>::type_id();
    assert_ne!(s, <(u8, u8) as Versionize>::type_id());
    assert_ne!(s, <VersionedVec<u16> as Versionize>::type_id());
    assert_ne!(s, <(bool, u8) as Versionize>::type_id());
}
