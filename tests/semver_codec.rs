use byteorder::{NativeEndian, ReadBytesExt};
use versionize::semver_codec::{SemVersion, MAX_VERSION_NUM};
use versionize::{VersionMap, Versionize, VersionizeError};

#[test]
fn test_ser_de_semver_err() {
    let mut snapshot_mem: Vec<u8> = Vec::new();
    let sem_ver = SemVersion::new(1, 1, MAX_VERSION_NUM + 1);
    assert_eq!(
        sem_ver.serialize(&mut snapshot_mem).unwrap_err(),
        VersionizeError::UnsupportedVersion("1.1.65536".to_string())
    );

    let sem_ver = SemVersion::parse("1.0.0-alpha").unwrap();
    assert_eq!(
        sem_ver.serialize(&mut snapshot_mem).unwrap_err(),
        VersionizeError::UnsupportedVersion("1.0.0-alpha".to_string())
    );

    let sem_ver = SemVersion::parse("1.0.0+alpha").unwrap();
    assert_eq!(
        sem_ver.serialize(&mut snapshot_mem).unwrap_err(),
        VersionizeError::UnsupportedVersion("1.0.0+alpha".to_string())
    );
    assert!(snapshot_mem.is_empty());
}

#[test]
fn test_ser_de_semver() {
    let mut snapshot_mem: Vec<u8> = Vec::new();
    let sem_ver = SemVersion::new(3, 0, 14);
    sem_ver.serialize(&mut snapshot_mem).unwrap();
    assert_eq!(snapshot_mem.len(), 6);

    assert_eq!(3, (&snapshot_mem[..2]).read_u16::<NativeEndian>().unwrap());
    assert_eq!(0, (&snapshot_mem[2..4]).read_u16::<NativeEndian>().unwrap());
    assert_eq!(14, (&snapshot_mem[4..6]).read_u16::<NativeEndian>().unwrap());

    let de_ver = SemVersion::deserialize(snapshot_mem.as_slice()).unwrap();
    assert_eq!(de_ver, SemVersion::parse("3.0.14").unwrap());
}

#[test]
fn semver_wire_is_little_endian() {
    let mut out: Vec<u8> = Vec::new();
    SemVersion::new(0x0102, 0x0304, 0xffff).serialize(&mut out).unwrap();
    assert_eq!(out, vec![0x02, 0x01, 0x04, 0x03, 0xff, 0xff]);
}

#[test]
fn semver_largest_components_round_trip() {
    let v = SemVersion::new(65535, 65535, 65535);
    let mut out: Vec<u8> = Vec::new();
    v.serialize(&mut out).unwrap();
    assert_eq!(SemVersion::deserialize(&out).unwrap(), v);
}

#[test]
fn semver_major_or_minor_too_large() {
    let mut out: Vec<u8> = Vec::new();
    assert_eq!(
        SemVersion::new(65536, 0, 0).serialize(&mut out).unwrap_err(),
        VersionizeError::UnsupportedVersion("65536.0.0".to_string())
    );
    assert_eq!(
        SemVersion::new(0, 70000, 1).serialize(&mut out).unwrap_err(),
        VersionizeError::UnsupportedVersion("0.70000.1".to_string())
    );
    assert!(out.is_empty());
}

#[test]
fn semver_deserialize_short_input() {
    assert!(matches!(
        SemVersion::deserialize(&[1, 0, 2, 0, 3]),
        Err(VersionizeError::Deserialize(_))
    ));
    assert!(matches!(
        SemVersion::deserialize(&[]),
        Err(VersionizeError::Deserialize(_))
    ));
}

#[test]
fn semver_deserialize_ignores_trailing_bytes() {
    let v = SemVersion::deserialize(&[7, 0, 1, 1, 0, 0, 9, 9]).unwrap();
    assert_eq!(v, SemVersion::new(7, 257, 0));
}

#[test]
fn semver_parse_fields_and_text() {
    let v = SemVersion::parse("1.2.3-rc.1+build.5").unwrap();
    assert_eq!(v.major, 1);
    assert_eq!(v.minor, 2);
    assert_eq!(v.patch, 3);
    assert_eq!(v.pre, "rc.1");
    assert_eq!(v.build, "build.5");
    assert_eq!(v.text(), "1.2.3-rc.1+build.5");
    assert_eq!(SemVersion::new(10, 0, 1234567).text(), "10.0.1234567");
}

#[test]
fn semver_parse_error() {
    match SemVersion::parse("not-a-version") {
        Err(VersionizeError::ParseVersion(text, msg)) => {
            assert_eq!(text, "not-a-version");
            assert!(!msg.is_empty());
        }
        other => panic!("unexpected {:?}", other),
    }
}

#[test]
fn semver_through_trait() {
    let vm = VersionMap::new();
    let v = SemVersion::new(2, 4, 8);
    let mut out: Vec<u8> = Vec::new();
    Versionize::serialize(&v, &mut out, &vm, 1).unwrap();
    let (back, used) = <SemVersion as Versionize>::deserialize(&out, &vm, 1).unwrap();
    assert_eq!(back, v);
    assert_eq!(used, 6);
}
