//! Semantic versions and their fixed-width wire form: three `u16` fields.
use vstd::prelude::*;

use crate::{VersionizeError, VersionizeResult};

verus! {

/// The largest value a version component may hold on the wire.
pub const MAX_VERSION_NUM: u64 = 65535;

/// The number of bytes a semantic version takes on the wire.
pub const SEMVER_WIRE_LEN: usize = 6;

/// A semantic version: `major.minor.patch`, with optional pre-release and
/// build metadata (empty when absent).
#[derive(Debug, PartialEq, Eq, Clone)]
pub struct SemVersion {
    pub major: u64,
    pub minor: u64,
    pub patch: u64,
    pub pre: String,
    pub build: String,
}

/// The mathematical value of a `SemVersion`.
pub type SemVersionModel = (u64, u64, u64, Seq<char>, Seq<char>);

impl View for SemVersion {
    type V = SemVersionModel;

    open spec fn view(&self) -> SemVersionModel {
        (self.major, self.minor, self.patch, self.pre@, self.build@)
    }
}

/// What `semver::Version::parse` yields for a text, as plain values; `None`
/// where it reports an error.
pub uninterp spec fn semver_parse_of(s: Seq<char>) -> Option<SemVersionModel>;

/// Relies on `semver::Version::parse`, which either yields a version or an
/// error with a message, depending on the text alone.
#[verifier::external_body]
fn parse_semver(s: &str) -> (r: Result<SemVersion, String>)
    ensures
        match r {
            Ok(v) => semver_parse_of(s@) == Some(v@),
            Err(_) => semver_parse_of(s@) is None,
        },
{
    match semver::Version::parse(s) {
        Ok(v) => Ok(
            SemVersion {
                major: v.major,
                minor: v.minor,
                patch: v.patch,
                pre: v.pre.as_str().to_string(),
                build: v.build.as_str().to_string(),
            },
        ),
        Err(e) => Err(e.to_string()),
    }
}

/// The two bytes of `x`, least significant first.
pub open spec fn le16(x: u16) -> Seq<u8> {
    seq![(x % 256) as u8, (x / 256) as u8]
}

/// The value of two bytes read least significant first.
pub open spec fn le16_value(b0: u8, b1: u8) -> u16 {
    (b0 as int + 256 * b1 as int) as u16
}

/// Relies on `bincode::serialize` with its default options (fixed-width
/// integers, little endian): a `u16` becomes its two bytes, least significant
/// first; serializing an integer into a `Vec` does not fail.
#[verifier::external_body]
pub(crate) fn u16_to_bytes(x: u16) -> (r: Result<Vec<u8>, String>)
    ensures
        r is Ok && r->Ok_0@ == le16(x),
{
    match bincode::serialize(&x) {
        Ok(b) => Ok(b),
        Err(e) => Err(format!("{:?}", e)),
    }
}

/// Relies on `bincode::deserialize` with its default options (fixed-width
/// integers, little endian, trailing bytes allowed): a `u16` is read from the
/// first two bytes; fewer than two bytes is an error.
#[verifier::external_body]
pub(crate) fn u16_from_bytes(b: &[u8]) -> (r: Result<u16, String>)
    ensures
        b@.len() >= 2 ==> r is Ok && r->Ok_0 == le16_value(b@[0], b@[1]),
        b@.len() < 2 ==> r is Err,
{
    match bincode::deserialize::<u16>(b) {
        Ok(x) => Ok(x),
        Err(e) => Err(format!("{:?}", e)),
    }
}

/// The decimal digits of `n`, most significant first.
pub open spec fn decimal(n: nat) -> Seq<char>
    decreases n,
{
    if n < 10 {
        seq![digit_char(n)]
    } else {
        decimal(n / 10).push(digit_char(n % 10))
    }
}

/// The character of a decimal digit.
pub open spec fn digit_char(d: nat) -> char {
    if d < 10 {
        (('0' as u32) + d) as char
    } else {
        '?'
    }
}

/// The text of a semantic version: `major.minor.patch`, then `-pre` and
/// `+build` where they are not empty.
pub open spec fn semver_text(v: SemVersionModel) -> Seq<char> {
    decimal(v.0 as nat) + seq!['.'] + decimal(v.1 as nat) + seq!['.'] + decimal(v.2 as nat) + (
    if v.3.len() == 0 {
        Seq::<char>::empty()
    } else {
        seq!['-'] + v.3
    }) + (if v.4.len() == 0 {
        Seq::<char>::empty()
    } else {
        seq!['+'] + v.4
    })
}

/// Whether a version can be written on the wire: a release version whose
/// components each fit in a `u16`.
pub open spec fn encodable(v: SemVersionModel) -> bool {
    v.3.len() == 0 && v.4.len() == 0 && v.0 <= MAX_VERSION_NUM && v.1 <= MAX_VERSION_NUM && v.2
        <= MAX_VERSION_NUM
}

/// The wire form of an encodable version: major, minor and patch, two bytes each.
pub open spec fn semver_wire(v: SemVersionModel) -> Seq<u8> {
    le16(v.0 as u16) + le16(v.1 as u16) + le16(v.2 as u16)
}

/// The version read from the first six bytes of `b`.
pub open spec fn semver_from_wire(b: Seq<u8>) -> SemVersionModel {
    (
        le16_value(b[0], b[1]) as u64,
        le16_value(b[2], b[3]) as u64,
        le16_value(b[4], b[5]) as u64,
        Seq::<char>::empty(),
        Seq::<char>::empty(),
    )
}

fn digit_text(d: u64) -> (r: &'static str)
    requires
        d < 10,
    ensures
        r@ == seq![digit_char(d as nat)],
{
    if d == 0 {
        proof { reveal_strlit("0"); }
        "0"
    } else if d == 1 {
        proof { reveal_strlit("1"); }
        "1"
    } else if d == 2 {
        proof { reveal_strlit("2"); }
        "2"
    } else if d == 3 {
        proof { reveal_strlit("3"); }
        "3"
    } else if d == 4 {
        proof { reveal_strlit("4"); }
        "4"
    } else if d == 5 {
        proof { reveal_strlit("5"); }
        "5"
    } else if d == 6 {
        proof { reveal_strlit("6"); }
        "6"
    } else if d == 7 {
        proof { reveal_strlit("7"); }
        "7"
    } else if d == 8 {
        proof { reveal_strlit("8"); }
        "8"
    } else {
        proof { reveal_strlit("9"); }
        "9"
    }
}

/// Appends the decimal digits of `n` to `s`.
pub(crate) fn push_decimal(s: &mut String, n: u64)
    ensures
        final(s)@ == old(s)@ + decimal(n as nat),
    decreases n,
{
    if n >= 10 {
        push_decimal(s, n / 10);
    }
    s.append(digit_text(n % 10));
    proof {
        assert(old(s)@ + decimal(n as nat) =~= old(s)@ + (if n >= 10 {
            decimal((n / 10) as nat)
        } else {
            Seq::<char>::empty()
        }) + seq![digit_char((n % 10) as nat)]);
    }
}

impl SemVersion {
    /// A release version with the given components.
    pub fn new(major: u64, minor: u64, patch: u64) -> (r: SemVersion)
        ensures
            r@ == (major, minor, patch, Seq::<char>::empty(), Seq::<char>::empty()),
    {
        SemVersion { major, minor, patch, pre: String::new(), build: String::new() }
    }

    /// Parses a semantic version; a text that is not one fails with
    /// `ParseVersion`, carrying the text and the parser's message.
    pub fn parse(s: &str) -> (r: VersionizeResult<SemVersion>)
        ensures
            match r {
                Ok(v) => semver_parse_of(s@) == Some(v@),
                Err(VersionizeError::ParseVersion(t, _)) => semver_parse_of(s@) is None && t@
                    == s@,
                Err(_) => false,
            },
    {
        match parse_semver(s) {
            Ok(v) => Ok(v),
            Err(msg) => Err(VersionizeError::ParseVersion(s.to_owned(), msg)),
        }
    }

    /// A copy of the version.
    pub fn duplicate(&self) -> (r: SemVersion)
        ensures
            r@ == self@,
    {
        SemVersion {
            major: self.major,
            minor: self.minor,
            patch: self.patch,
            pre: self.pre.clone(),
            build: self.build.clone(),
        }
    }

    /// Whether two versions are the same, component by component.
    pub fn same_as(&self, other: &SemVersion) -> (r: bool)
        ensures
            r == (self@ == other@),
    {
        self.major == other.major && self.minor == other.minor && self.patch == other.patch
            && self.pre == other.pre && self.build == other.build
    }

    /// The text of the version, as `major.minor.patch[-pre][+build]`.
    pub fn text(&self) -> (r: String)
        ensures
            r@ == semver_text(self@),
    {
        let mut s = String::new();
        push_decimal(&mut s, self.major);
        proof { reveal_strlit("."); }
        s.append(".");
        push_decimal(&mut s, self.minor);
        s.append(".");
        push_decimal(&mut s, self.patch);
        if !self.pre.as_str().is_empty() {
            proof { reveal_strlit("-"); }
            s.append("-");
            s.append(self.pre.as_str());
        }
        if !self.build.as_str().is_empty() {
            proof { reveal_strlit("+"); }
            s.append("+");
            s.append(self.build.as_str());
        }
        assert(s@ =~= semver_text(self@));
        s
    }
}


impl SemVersion {
    /// Writes the version as three `u16` fields: major, minor, patch. A
    /// version with pre-release or build metadata, or with a component above
    /// `MAX_VERSION_NUM`, fails with `UnsupportedVersion` and writes nothing.
    pub fn serialize(&self, writer: &mut Vec<u8>) -> (r: VersionizeResult<()>)
        ensures
            encodable(self@) ==> r is Ok && final(writer)@ == old(writer)@ + semver_wire(self@),
            !encodable(self@) ==> (r matches Err(VersionizeError::UnsupportedVersion(t)) && t@
                == semver_text(self@)) && final(writer)@ == old(writer)@,
    {
        if !self.pre.as_str().is_empty() || !self.build.as_str().is_empty() || self.major
            > MAX_VERSION_NUM || self.minor > MAX_VERSION_NUM || self.patch > MAX_VERSION_NUM {
            return Err(VersionizeError::UnsupportedVersion(self.text()));
        }
        let ghost start = writer@;
        let major = match u16_to_bytes(self.major as u16) {
            Ok(b) => b,
            Err(e) => {
                return Err(VersionizeError::Serialize(e));
            },
        };
        let minor = match u16_to_bytes(self.minor as u16) {
            Ok(b) => b,
            Err(e) => {
                return Err(VersionizeError::Serialize(e));
            },
        };
        let patch = match u16_to_bytes(self.patch as u16) {
            Ok(b) => b,
            Err(e) => {
                return Err(VersionizeError::Serialize(e));
            },
        };
        writer.push(major[0]);
        writer.push(major[1]);
        writer.push(minor[0]);
        writer.push(minor[1]);
        writer.push(patch[0]);
        writer.push(patch[1]);
        assert(writer@ =~= start + semver_wire(self@));
        Ok(())
    }

    /// Reads a version from its first six bytes; fewer bytes fail with
    /// `Deserialize`.
    pub fn deserialize(reader: &[u8]) -> (r: VersionizeResult<SemVersion>)
        ensures
            reader@.len() >= SEMVER_WIRE_LEN ==> r is Ok && r->Ok_0@ == semver_from_wire(reader@),
            reader@.len() < SEMVER_WIRE_LEN ==> r matches Err(VersionizeError::Deserialize(_)),
    {
        if reader.len() < SEMVER_WIRE_LEN {
            return Err(
                VersionizeError::Deserialize(String::from_str("semantic version cut short")),
            );
        }
        let major = match u16_from_bytes(&reader[0..2]) {
            Ok(x) => x,
            Err(e) => {
                return Err(VersionizeError::Deserialize(e));
            },
        };
        let minor = match u16_from_bytes(&reader[2..4]) {
            Ok(x) => x,
            Err(e) => {
                return Err(VersionizeError::Deserialize(e));
            },
        };
        let patch = match u16_from_bytes(&reader[4..6]) {
            Ok(x) => x,
            Err(e) => {
                return Err(VersionizeError::Deserialize(e));
            },
        };
        Ok(SemVersion::new(major as u64, minor as u64, patch as u64))
    }
}

/// Two bytes written least significant first read back as the same `u16`.
pub proof fn lemma_le16_round_trip(x: u16)
    ensures
        le16_value(le16(x)[0], le16(x)[1]) == x,
{
    assert((x % 256) + 256 * (x / 256) == x) by (nonlinear_arith);
}

/// A version that can be encoded is read back unchanged from its wire form,
/// whatever bytes follow it; the wire form is six bytes long.
pub proof fn lemma_semver_round_trip(v: SemVersionModel, rest: Seq<u8>)
    requires
        encodable(v),
    ensures
        semver_wire(v).len() == SEMVER_WIRE_LEN,
        semver_from_wire(semver_wire(v) + rest) == v,
{
    lemma_le16_round_trip(v.0 as u16);
    lemma_le16_round_trip(v.1 as u16);
    lemma_le16_round_trip(v.2 as u16);
    let b = semver_wire(v) + rest;
    assert(b[0] == le16(v.0 as u16)[0] && b[1] == le16(v.0 as u16)[1]);
    assert(b[2] == le16(v.1 as u16)[0] && b[3] == le16(v.1 as u16)[1]);
    assert(b[4] == le16(v.2 as u16)[0] && b[5] == le16(v.2 as u16)[1]);
    assert(v.3 =~= Seq::<char>::empty());
    assert(v.4 =~= Seq::<char>::empty());
}

} // verus!
