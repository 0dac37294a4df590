use versionize::VersionizeError::{Deserialize, Io, Semantic, Serialize};
use versionize::VersionizeError;

#[test]
fn test_error_debug_display() {
    // Validates Debug is implemented.
    let str = String::from("test");
    format!("{:?}{:?}", Io(0), Io(0));
    format!("{:?}{:?}", Serialize(str.clone()), Serialize(str.clone()));
    format!("{:?}{:?}", Deserialize(str.clone()), Deserialize(str.clone()));
    format!("{:?}{:?}", Semantic(str.clone()), Semantic(str));
}

#[test]
fn error_descriptions() {

    assert_eq!(Io(-5).describe(), "An IO error occured: -5");
    assert_eq!(Io(0).describe(), "An IO error occured: 0");
    assert_eq!(
        Serialize("bad".to_string()).describe(),
        "A serialization error occured: bad"
    );
    assert_eq!(
        VersionizeError::StringLength(20000).describe(),
        "String length exceeded 20000 > 16384 bytes"
    );
    assert_eq!(
        VersionizeError::VecLength(11).describe(),
        "Vec of length 11 exceeded maximum size of 10485760 bytes"
    );
    assert_eq!(
        VersionizeError::MultipleVersion("foo".into(), "1.0.0".into(), "2.0.0".into()).describe(),
        "Multiple versions of foo: 1.0.0 and 2.0.0"
    );
    assert_eq!(
        VersionizeError::NotFoundName("x".into()).describe(),
        "No version registered for x"
    );
}
