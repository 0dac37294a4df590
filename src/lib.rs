//! Version tolerant serialization: a version map that resolves root versions
//! to per-type versions, a registry of named compatibility versions, a
//! bounded primitives codec and a CRC-64 integrity trailer.
use vstd::prelude::*;

pub mod crc;
pub mod primitives;
pub mod semver_codec;
pub mod sequence;
pub mod version_map;
pub mod versionize;

use primitives::{MAX_STRING_LEN, MAX_VEC_LEN};
use semver_codec::{decimal, push_decimal};
pub use version_map::VersionMap;
pub use versionize::Versionize;

verus! {

/// Versioned serialization error definitions.
#[derive(Debug, PartialEq, Eq, Clone)]
pub enum VersionizeError {
    /// An IO error occured.
    Io(i32),
    /// A serialization error.
    Serialize(String),
    /// A deserialization error.
    Deserialize(String),
    /// A user generated semantic error.
    Semantic(String),
    /// String length exceeded.
    StringLength(usize),
    /// Vector length exceeded.
    VecLength(usize),
    /// A semantic version that cannot be encoded.
    UnsupportedVersion(String),
    /// A text that is not a semantic version: the text and the parser's message.
    ParseVersion(String, String),
    /// A name registered again with another version: the name, the version
    /// already registered and the one offered.
    MultipleVersion(String, String, String),
    /// A name that has no registered version.
    NotFoundName(String),
}

/// Versioned serialization/deserialization result.
pub type VersionizeResult<T> = Result<T, VersionizeError>;

/// The decimal text of a signed number.
pub open spec fn signed_decimal(x: int) -> Seq<char> {
    if x < 0 {
        seq!['-'] + decimal((-x) as nat)
    } else {
        decimal(x as nat)
    }
}

/// The message that describes an error.
pub open spec fn error_text(e: VersionizeError) -> Seq<char> {
    match e {
        VersionizeError::Io(code) => "An IO error occured: "@ + signed_decimal(code as int),
        VersionizeError::Serialize(m) => "A serialization error occured: "@ + m@,
        VersionizeError::Deserialize(m) => "A deserialization error occured: "@ + m@,
        VersionizeError::Semantic(m) => "A user generated semantic error occured: "@ + m@,
        VersionizeError::StringLength(n) => "String length exceeded "@ + decimal(n as nat)
            + " > "@ + decimal(MAX_STRING_LEN as nat) + " bytes"@,
        VersionizeError::VecLength(n) => "Vec of length "@ + decimal(n as nat)
            + " exceeded maximum size of "@ + decimal(MAX_VEC_LEN as nat) + " bytes"@,
        VersionizeError::UnsupportedVersion(v) => "Unsupported version: "@ + v@,
        VersionizeError::ParseVersion(v, m) => "Failed to parse version "@ + v@ + ": "@ + m@,
        VersionizeError::MultipleVersion(n, a, b) => "Multiple versions of "@ + n@ + ": "@ + a@
            + " and "@ + b@,
        VersionizeError::NotFoundName(n) => "No version registered for "@ + n@,
    }
}

impl VersionizeError {
    /// A message that describes the error.
    pub fn describe(&self) -> (r: String)
        ensures
            r@ == error_text(*self),
    {
        let mut s = String::new();
        match self {
            VersionizeError::Io(code) => {
                s.append("An IO error occured: ");
                let ghost head = s@;
                if *code < 0 {
                    s.append("-");
                    proof {
                        reveal_strlit("-");
                    }
                    push_decimal(&mut s, (-(*code as i64)) as u64);
                    assert(s@ =~= head + signed_decimal(*code as int));
                } else {
                    push_decimal(&mut s, *code as u64);
                    assert(s@ =~= head + signed_decimal(*code as int));
                }
            },
            VersionizeError::Serialize(m) => {
                s.append("A serialization error occured: ");
                s.append(m.as_str());
            },
            VersionizeError::Deserialize(m) => {
                s.append("A deserialization error occured: ");
                s.append(m.as_str());
            },
            VersionizeError::Semantic(m) => {
                s.append("A user generated semantic error occured: ");
                s.append(m.as_str());
            },
            VersionizeError::StringLength(n) => {
                s.append("String length exceeded ");
                push_decimal(&mut s, *n as u64);
                s.append(" > ");
                push_decimal(&mut s, MAX_STRING_LEN as u64);
                s.append(" bytes");
            },
            VersionizeError::VecLength(n) => {
                s.append("Vec of length ");
                push_decimal(&mut s, *n as u64);
                s.append(" exceeded maximum size of ");
                push_decimal(&mut s, MAX_VEC_LEN as u64);
                s.append(" bytes");
            },
            VersionizeError::UnsupportedVersion(v) => {
                s.append("Unsupported version: ");
                s.append(v.as_str());
            },
            VersionizeError::ParseVersion(v, m) => {
                s.append("Failed to parse version ");
                s.append(v.as_str());
                s.append(": ");
                s.append(m.as_str());
            },
            VersionizeError::MultipleVersion(n, a, b) => {
                s.append("Multiple versions of ");
                s.append(n.as_str());
                s.append(": ");
                s.append(a.as_str());
                s.append(" and ");
                s.append(b.as_str());
            },
            VersionizeError::NotFoundName(n) => {
                s.append("No version registered for ");
                s.append(n.as_str());
            },
        }
        assert(s@ =~= error_text(*self));
        s
    }
}

} // verus!
