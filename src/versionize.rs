//! The contract every versioned type meets: it writes itself for a target
//! root version under a version map, reads itself back for a source root
//! version, and proves that what it writes it reads back.
use vstd::prelude::*;
use vstd::utf8::{decode_utf8, encode_utf8, valid_utf8};

use crate::primitives::{
    bytes_wire, deserialize_bytes, deserialize_string, le_bytes, lemma_bytes_round_trip,
    lemma_string_round_trip, lemma_u64_round_trip, prefix_of, read_u64, serialize_bytes,
    serialize_string, string_wire, write_u64, LEN_PREFIX, MAX_STRING_LEN, MAX_VEC_LEN,
};
use crate::semver_codec::{
    le16, le16_value, lemma_le16_round_trip, u16_from_bytes, u16_to_bytes, semver_text, encodable, lemma_semver_round_trip, semver_from_wire, semver_wire, SemVersion, SEMVER_WIRE_LEN,
};
use crate::version_map::VersionMap;
use crate::{VersionizeError, VersionizeResult};

verus! {

/// The type versions in which a field is present: from `start` on, and
/// before `end` where there is one.
#[derive(Debug, Clone, Copy, PartialEq, Eq)]
pub struct FieldVersionRange {
    pub start: u16,
    pub end: Option<u16>,
}

impl FieldVersionRange {
    /// Whether the range holds `version`.
    pub open spec fn holds(&self, version: u16) -> bool {
        self.start <= version && match self.end {
            Some(e) => version < e,
            None => true,
        }
    }

    /// Whether a field with this range is present at type version `version`.
    pub fn contains(&self, version: u16) -> (r: bool)
        ensures
            r == self.holds(version),
    {
        self.start <= version && match self.end {
            Some(e) => version < e,
            None => true,
        }
    }
}

/// Version aware serialization and deserialization.
pub trait Versionize: Sized + View {
    /// The bytes that `v` is written as for root version `root` under `vm`;
    /// `None` where it cannot be written.
    spec fn wire(v: Self::V, vm: VersionMap, root: u16) -> Option<Seq<u8>>;

    /// The value read from the start of `b` for root version `root` under
    /// `vm`, with the number of bytes it takes; `None` where none can be read.
    spec fn read(b: Seq<u8>, vm: VersionMap, root: u16) -> Option<(Self::V, nat)>;

    /// What of `v` is present at root version `root` under `vm`: fields
    /// outside the range of the resolved type version hold their default.
    spec fn at_root(v: Self::V, vm: VersionMap, root: u16) -> Self::V;

    /// What a write of `v` that cannot be done fails with: the error `e`,
    /// having appended `written` before it stopped.
    spec fn failure(v: Self::V, vm: VersionMap, root: u16, e: VersionizeError, written: Seq<
        u8,
    >) -> bool;

    /// Appends `self` as written for `target_version`; where it cannot be
    /// written, fails as `failure` says, and what was appended before the
    /// failure stays.
    fn serialize(&self, writer: &mut Vec<u8>, version_map: &VersionMap, target_version: u16) -> (r:
        VersionizeResult<()>)
        requires
            version_map.wf(),
            target_version <= version_map.latest_spec(),
        ensures
            Self::wire(self@, *version_map, target_version) is Some ==> r is Ok && final(writer)@
                == old(writer)@ + Self::wire(self@, *version_map, target_version)->Some_0,
            Self::wire(self@, *version_map, target_version) is None ==> r is Err && old(
                writer,
            )@.is_prefix_of(final(writer)@) && Self::failure(
                self@,
                *version_map,
                target_version,
                r->Err_0,
                final(writer)@.skip(old(writer)@.len() as int),
            ),
    ;

    /// Reads a value written for `source_version` from the start of
    /// `reader`, with the number of bytes it took.
    fn deserialize(reader: &[u8], version_map: &VersionMap, source_version: u16) -> (r:
        VersionizeResult<(Self, usize)>)
        requires
            version_map.wf(),
            source_version <= version_map.latest_spec(),
        ensures
            Self::read(reader@, *version_map, source_version) is Some ==> r is Ok && r->Ok_0.0@
                == Self::read(reader@, *version_map, source_version)->Some_0.0 && r->Ok_0.1
                == Self::read(reader@, *version_map, source_version)->Some_0.1,
            Self::read(reader@, *version_map, source_version) is None ==> r is Err,
            r is Ok ==> r->Ok_0.1 <= reader@.len(),
    ;

    /// The identity of the type in a version map, the same in every version
    /// of the type.
    spec fn identity() -> u64;

    /// The identity of the type in a version map.
    fn type_id() -> (r: u64)
        ensures
            r == Self::identity(),
    ;

    /// The latest version of the type that this build writes and reads.
    spec fn current_version() -> u16;

    /// The latest version of the type that this build writes and reads.
    fn version() -> (r: u16)
        ensures
            r == Self::current_version(),
    ;

    /// What is written for a root version reads back, whatever follows it,
    /// as the value restricted to the fields present at that root, taking
    /// exactly the bytes written.
    proof fn lemma_round_trip(v: Self::V, vm: VersionMap, root: u16, rest: Seq<u8>)
        requires
            vm.wf(),
            root <= vm.latest_spec(),
            Self::wire(v, vm, root) is Some,
        ensures
            Self::read(Self::wire(v, vm, root)->Some_0 + rest, vm, root) == Some(
                (Self::at_root(v, vm, root), Self::wire(v, vm, root)->Some_0.len()),
            ),
    ;

    /// What is read never takes more bytes than there are.
    proof fn lemma_read_within(b: Seq<u8>, vm: VersionMap, root: u16)
        requires
            Self::read(b, vm, root) is Some,
        ensures
            Self::read(b, vm, root)->Some_0.1 <= b.len(),
    ;
}

/// The identity of `SemVersion` in a version map.
pub const SEMVER_TYPE_ID: u64 = 1;

/// The identity of `String` in a version map.
pub const STRING_TYPE_ID: u64 = 2;

/// The identity of byte vectors in a version map.
pub const BYTES_TYPE_ID: u64 = 3;

/// The identity of `u64` in a version map.
pub const U64_TYPE_ID: u64 = 4;

/// The identity of `u8` in a version map.
pub const U8_TYPE_ID: u64 = 6;

/// The identity of `u16` in a version map.
pub const U16_TYPE_ID: u64 = 7;

/// The identity of `bool` in a version map.
pub const BOOL_TYPE_ID: u64 = 8;

/// Every identity of a type that is not a pair is below this bound.
pub const PAIR_BASE: u64 = 64;

/// Member identities below this bound give a pair an identity of its own.
pub const PAIR_MEMBER_BOUND: u64 = 0x8000_0000;

/// The identity shared by every pair with a member identity at or above
/// `PAIR_MEMBER_BOUND`; such pairs are nested too deeply to be told apart
/// and are not to be keyed in a version map.
pub const TOO_DEEP_ID: u64 = 0xffff_ffff_ffff_ffff;

/// The identity of a pair whose members have identities `a` and `b`: with
/// `s = a + b`, the value `PAIR_BASE + s * s + b`; for a given `s` these
/// fill `s * s ..= s * s + s`, which no other `s` reaches.
pub open spec fn pair_identity(a: u64, b: u64) -> u64 {
    if a < PAIR_MEMBER_BOUND && b < PAIR_MEMBER_BOUND {
        (PAIR_BASE + (a + b) * (a + b) + b) as u64
    } else {
        TOO_DEEP_ID
    }
}

proof fn lemma_pair_identity_fits(a: u64, b: u64)
    requires
        a < PAIR_MEMBER_BOUND,
        b < PAIR_MEMBER_BOUND,
    ensures
        PAIR_BASE + (a + b) * (a + b) + b < TOO_DEEP_ID,
{
    let s = a + b;
    assert(s * s <= 0xffff_fffe * 0xffff_fffe) by (nonlinear_arith)
        requires
            0 <= s <= 0xffff_fffe,
    ;
}

/// The identity of a pair whose members have identities `a` and `b`.
pub fn pair_id(a: u64, b: u64) -> (r: u64)
    ensures
        r == pair_identity(a, b),
{
    if a < PAIR_MEMBER_BOUND && b < PAIR_MEMBER_BOUND {
        proof {
            lemma_pair_identity_fits(a, b);
        }
        let s = a + b;
        PAIR_BASE + s * s + b
    } else {
        TOO_DEEP_ID
    }
}

/// Pair identities tell pairs apart: two pairs whose members' identities
/// are below `PAIR_MEMBER_BOUND` have the same identity only where their
/// members have the same identities, in order; and a pair's identity is
/// never that of a type that is not a pair.
pub proof fn lemma_pair_identity_injective(a: u64, b: u64, c: u64, d: u64)
    requires
        a < PAIR_MEMBER_BOUND,
        b < PAIR_MEMBER_BOUND,
        c < PAIR_MEMBER_BOUND,
        d < PAIR_MEMBER_BOUND,
        pair_identity(a, b) == pair_identity(c, d),
    ensures
        a == c,
        b == d,
        PAIR_BASE <= pair_identity(a, b) < TOO_DEEP_ID,
{
    lemma_pair_identity_fits(a, b);
    lemma_pair_identity_fits(c, d);
    let s = a + b;
    let t = c + d;
    assert(s * s + b == t * t + d);
    if s < t {
        assert(s * s + s < t * t) by (nonlinear_arith)
            requires
                0 <= s < t,
        ;
    } else if t < s {
        assert(t * t + t < s * s) by (nonlinear_arith)
            requires
                0 <= t < s,
        ;
    }
    assert(s == t);
}

impl Versionize for SemVersion {
    open spec fn wire(v: Self::V, vm: VersionMap, root: u16) -> Option<Seq<u8>> {
        if encodable(v) {
            Some(semver_wire(v))
        } else {
            None
        }
    }

    open spec fn read(b: Seq<u8>, vm: VersionMap, root: u16) -> Option<(Self::V, nat)> {
        if b.len() >= SEMVER_WIRE_LEN {
            Some((semver_from_wire(b), SEMVER_WIRE_LEN as nat))
        } else {
            None
        }
    }

    open spec fn failure(v: Self::V, vm: VersionMap, root: u16, e: VersionizeError, written: Seq<
        u8,
    >) -> bool {
        (e matches VersionizeError::UnsupportedVersion(t) && t@ == semver_text(v)) && written.len()
            == 0
    }

    open spec fn at_root(v: Self::V, vm: VersionMap, root: u16) -> Self::V {
        v
    }

    fn serialize(&self, writer: &mut Vec<u8>, version_map: &VersionMap, target_version: u16) -> (r:
        VersionizeResult<()>) {
        let r = SemVersion::serialize(self, writer);
        proof {
            if r is Err {
                assert(writer@.skip(old(writer)@.len() as int) =~= Seq::<u8>::empty());
            }
        }
        r
    }

    fn deserialize(reader: &[u8], version_map: &VersionMap, source_version: u16) -> (r:
        VersionizeResult<(Self, usize)>) {
        match SemVersion::deserialize(reader) {
            Ok(v) => Ok((v, SEMVER_WIRE_LEN)),
            Err(e) => Err(e),
        }
    }

    open spec fn identity() -> u64 {
        SEMVER_TYPE_ID
    }

    fn type_id() -> (r: u64) {
        SEMVER_TYPE_ID
    }

    open spec fn current_version() -> u16 {
        1
    }

    fn version() -> (r: u16) {
        1
    }

    proof fn lemma_read_within(b: Seq<u8>, vm: VersionMap, root: u16) {
    }

    proof fn lemma_round_trip(v: Self::V, vm: VersionMap, root: u16, rest: Seq<u8>) {
        lemma_semver_round_trip(v, rest);
    }
}

impl Versionize for String {
    open spec fn wire(v: Self::V, vm: VersionMap, root: u16) -> Option<Seq<u8>> {
        if encode_utf8(v).len() <= MAX_STRING_LEN {
            Some(string_wire(v))
        } else {
            None
        }
    }

    open spec fn read(b: Seq<u8>, vm: VersionMap, root: u16) -> Option<(Self::V, nat)> {
        let n = prefix_of(b);
        let payload = b.subrange(LEN_PREFIX as int, LEN_PREFIX + n);
        if b.len() >= LEN_PREFIX && n <= MAX_STRING_LEN && LEN_PREFIX + n <= b.len() && valid_utf8(
            payload,
        ) {
            Some((decode_utf8(payload), (LEN_PREFIX + n) as nat))
        } else {
            None
        }
    }

    open spec fn failure(v: Self::V, vm: VersionMap, root: u16, e: VersionizeError, written: Seq<
        u8,
    >) -> bool {
        e == VersionizeError::StringLength(encode_utf8(v).len() as usize) && written.len() == 0
    }

    open spec fn at_root(v: Self::V, vm: VersionMap, root: u16) -> Self::V {
        v
    }

    fn serialize(&self, writer: &mut Vec<u8>, version_map: &VersionMap, target_version: u16) -> (r:
        VersionizeResult<()>) {
        let r = serialize_string(self.as_str(), writer);
        proof {
            if r is Err {
                assert(writer@.skip(old(writer)@.len() as int) =~= Seq::<u8>::empty());
            }
        }
        r
    }

    fn deserialize(reader: &[u8], version_map: &VersionMap, source_version: u16) -> (r:
        VersionizeResult<(Self, usize)>) {
        deserialize_string(reader)
    }

    open spec fn identity() -> u64 {
        STRING_TYPE_ID
    }

    fn type_id() -> (r: u64) {
        STRING_TYPE_ID
    }

    open spec fn current_version() -> u16 {
        1
    }

    fn version() -> (r: u16) {
        1
    }

    proof fn lemma_read_within(b: Seq<u8>, vm: VersionMap, root: u16) {
    }

    proof fn lemma_round_trip(v: Self::V, vm: VersionMap, root: u16, rest: Seq<u8>) {
        lemma_string_round_trip(v, rest);
        lemma_bytes_round_trip(encode_utf8(v), rest);
    }
}

impl Versionize for Vec<u8> {
    open spec fn wire(v: Self::V, vm: VersionMap, root: u16) -> Option<Seq<u8>> {
        if v.len() <= MAX_VEC_LEN {
            Some(bytes_wire(v))
        } else {
            None
        }
    }

    open spec fn read(b: Seq<u8>, vm: VersionMap, root: u16) -> Option<(Self::V, nat)> {
        let n = prefix_of(b);
        if b.len() >= LEN_PREFIX && n <= MAX_VEC_LEN && LEN_PREFIX + n <= b.len() {
            Some((b.subrange(LEN_PREFIX as int, LEN_PREFIX + n), (LEN_PREFIX + n) as nat))
        } else {
            None
        }
    }

    open spec fn failure(v: Self::V, vm: VersionMap, root: u16, e: VersionizeError, written: Seq<
        u8,
    >) -> bool {
        e == VersionizeError::VecLength(v.len() as usize) && written.len() == 0
    }

    open spec fn at_root(v: Self::V, vm: VersionMap, root: u16) -> Self::V {
        v
    }

    fn serialize(&self, writer: &mut Vec<u8>, version_map: &VersionMap, target_version: u16) -> (r:
        VersionizeResult<()>) {
        let r = serialize_bytes(self.as_slice(), writer);
        proof {
            if r is Err {
                assert(writer@.skip(old(writer)@.len() as int) =~= Seq::<u8>::empty());
            }
        }
        r
    }

    fn deserialize(reader: &[u8], version_map: &VersionMap, source_version: u16) -> (r:
        VersionizeResult<(Self, usize)>) {
        deserialize_bytes(reader)
    }

    open spec fn identity() -> u64 {
        BYTES_TYPE_ID
    }

    fn type_id() -> (r: u64) {
        BYTES_TYPE_ID
    }

    open spec fn current_version() -> u16 {
        1
    }

    fn version() -> (r: u16) {
        1
    }

    proof fn lemma_read_within(b: Seq<u8>, vm: VersionMap, root: u16) {
    }

    proof fn lemma_round_trip(v: Self::V, vm: VersionMap, root: u16, rest: Seq<u8>) {
        lemma_bytes_round_trip(v, rest);
    }
}

impl Versionize for u64 {
    open spec fn wire(v: Self::V, vm: VersionMap, root: u16) -> Option<Seq<u8>> {
        Some(le_bytes(v as nat, 8))
    }

    open spec fn read(b: Seq<u8>, vm: VersionMap, root: u16) -> Option<(Self::V, nat)> {
        if b.len() >= LEN_PREFIX {
            Some((prefix_of(b) as u64, LEN_PREFIX as nat))
        } else {
            None
        }
    }

    open spec fn failure(v: Self::V, vm: VersionMap, root: u16, e: VersionizeError, written: Seq<
        u8,
    >) -> bool {
        written.len() == 0
    }

    open spec fn at_root(v: Self::V, vm: VersionMap, root: u16) -> Self::V {
        v
    }

    fn serialize(&self, writer: &mut Vec<u8>, version_map: &VersionMap, target_version: u16) -> (r:
        VersionizeResult<()>) {
        write_u64(writer, *self);
        Ok(())
    }

    fn deserialize(reader: &[u8], version_map: &VersionMap, source_version: u16) -> (r:
        VersionizeResult<(Self, usize)>) {
        match read_u64(reader) {
            Some(n) => Ok((n, LEN_PREFIX)),
            None => Err(VersionizeError::Deserialize(String::from_str("u64 cut short"))),
        }
    }

    open spec fn identity() -> u64 {
        U64_TYPE_ID
    }

    fn type_id() -> (r: u64) {
        U64_TYPE_ID
    }

    open spec fn current_version() -> u16 {
        1
    }

    fn version() -> (r: u16) {
        1
    }

    proof fn lemma_read_within(b: Seq<u8>, vm: VersionMap, root: u16) {
    }

    proof fn lemma_round_trip(v: Self::V, vm: VersionMap, root: u16, rest: Seq<u8>) {
        lemma_u64_round_trip(v, rest);
    }
}

impl Versionize for u8 {
    open spec fn wire(v: Self::V, vm: VersionMap, root: u16) -> Option<Seq<u8>> {
        Some(seq![v])
    }

    open spec fn read(b: Seq<u8>, vm: VersionMap, root: u16) -> Option<(Self::V, nat)> {
        if b.len() >= 1 {
            Some((b[0], 1))
        } else {
            None
        }
    }

    open spec fn failure(v: Self::V, vm: VersionMap, root: u16, e: VersionizeError, written: Seq<
        u8,
    >) -> bool {
        written.len() == 0
    }

    open spec fn at_root(v: Self::V, vm: VersionMap, root: u16) -> Self::V {
        v
    }

    fn serialize(&self, writer: &mut Vec<u8>, version_map: &VersionMap, target_version: u16) -> (r:
        VersionizeResult<()>) {
        writer.push(*self);
        Ok(())
    }

    fn deserialize(reader: &[u8], version_map: &VersionMap, source_version: u16) -> (r:
        VersionizeResult<(Self, usize)>) {
        if reader.len() < 1 {
            return Err(VersionizeError::Deserialize(String::from_str("u8 cut short")));
        }
        Ok((reader[0], 1))
    }

    open spec fn identity() -> u64 {
        U8_TYPE_ID
    }

    fn type_id() -> (r: u64) {
        U8_TYPE_ID
    }

    open spec fn current_version() -> u16 {
        1
    }

    fn version() -> (r: u16) {
        1
    }

    proof fn lemma_read_within(b: Seq<u8>, vm: VersionMap, root: u16) {
    }

    proof fn lemma_round_trip(v: Self::V, vm: VersionMap, root: u16, rest: Seq<u8>) {
        assert((seq![v] + rest)[0] == v);
    }
}

impl Versionize for bool {
    open spec fn wire(v: Self::V, vm: VersionMap, root: u16) -> Option<Seq<u8>> {
        Some(seq![if v { 1u8 } else { 0u8 }])
    }

    open spec fn read(b: Seq<u8>, vm: VersionMap, root: u16) -> Option<(Self::V, nat)> {
        if b.len() >= 1 && b[0] <= 1 {
            Some((b[0] == 1, 1))
        } else {
            None
        }
    }

    open spec fn failure(v: Self::V, vm: VersionMap, root: u16, e: VersionizeError, written: Seq<
        u8,
    >) -> bool {
        written.len() == 0
    }

    open spec fn at_root(v: Self::V, vm: VersionMap, root: u16) -> Self::V {
        v
    }

    fn serialize(&self, writer: &mut Vec<u8>, version_map: &VersionMap, target_version: u16) -> (r:
        VersionizeResult<()>) {
        writer.push(if *self { 1u8 } else { 0u8 });
        Ok(())
    }

    fn deserialize(reader: &[u8], version_map: &VersionMap, source_version: u16) -> (r:
        VersionizeResult<(Self, usize)>) {
        if reader.len() < 1 || reader[0] > 1 {
            return Err(VersionizeError::Deserialize(String::from_str("invalid bool")));
        }
        Ok((reader[0] == 1, 1))
    }

    open spec fn identity() -> u64 {
        BOOL_TYPE_ID
    }

    fn type_id() -> (r: u64) {
        BOOL_TYPE_ID
    }

    open spec fn current_version() -> u16 {
        1
    }

    fn version() -> (r: u16) {
        1
    }

    proof fn lemma_read_within(b: Seq<u8>, vm: VersionMap, root: u16) {
    }

    proof fn lemma_round_trip(v: Self::V, vm: VersionMap, root: u16, rest: Seq<u8>) {
        let w = seq![if v { 1u8 } else { 0u8 }];
        assert((w + rest)[0] == w[0]);
    }
}

impl Versionize for u16 {
    open spec fn wire(v: Self::V, vm: VersionMap, root: u16) -> Option<Seq<u8>> {
        Some(le16(v))
    }

    open spec fn read(b: Seq<u8>, vm: VersionMap, root: u16) -> Option<(Self::V, nat)> {
        if b.len() >= 2 {
            Some((le16_value(b[0], b[1]), 2))
        } else {
            None
        }
    }

    open spec fn failure(v: Self::V, vm: VersionMap, root: u16, e: VersionizeError, written: Seq<
        u8,
    >) -> bool {
        written.len() == 0
    }

    open spec fn at_root(v: Self::V, vm: VersionMap, root: u16) -> Self::V {
        v
    }

    fn serialize(&self, writer: &mut Vec<u8>, version_map: &VersionMap, target_version: u16) -> (r:
        VersionizeResult<()>) {
        let b = match u16_to_bytes(*self) {
            Ok(b) => b,
            Err(e) => {
                return Err(VersionizeError::Serialize(e));
            },
        };
        let ghost start = writer@;
        writer.push(b[0]);
        writer.push(b[1]);
        assert(writer@ =~= start + le16(*self));
        Ok(())
    }

    fn deserialize(reader: &[u8], version_map: &VersionMap, source_version: u16) -> (r:
        VersionizeResult<(Self, usize)>) {
        match u16_from_bytes(reader) {
            Ok(x) => Ok((x, 2)),
            Err(e) => Err(VersionizeError::Deserialize(e)),
        }
    }

    open spec fn identity() -> u64 {
        U16_TYPE_ID
    }

    fn type_id() -> (r: u64) {
        U16_TYPE_ID
    }

    open spec fn current_version() -> u16 {
        1
    }

    fn version() -> (r: u16) {
        1
    }

    proof fn lemma_read_within(b: Seq<u8>, vm: VersionMap, root: u16) {
    }

    proof fn lemma_round_trip(v: Self::V, vm: VersionMap, root: u16, rest: Seq<u8>) {
        lemma_le16_round_trip(v);
        let b = le16(v) + rest;
        assert(b[0] == le16(v)[0] && b[1] == le16(v)[1]);
    }
}

/// A pair is written as its first member and then its second, each for
/// the same root version under the same map, each resolving its own version.
impl<A: Versionize, B: Versionize> Versionize for (A, B) {
    open spec fn wire(v: Self::V, vm: VersionMap, root: u16) -> Option<Seq<u8>> {
        match (A::wire(v.0, vm, root), B::wire(v.1, vm, root)) {
            (Some(x), Some(y)) => Some(x + y),
            _ => None,
        }
    }

    open spec fn read(b: Seq<u8>, vm: VersionMap, root: u16) -> Option<(Self::V, nat)> {
        match A::read(b, vm, root) {
            Some((a, n)) => match B::read(b.skip(n as int), vm, root) {
                Some((c, m)) => Some(((a, c), n + m)),
                None => None,
            },
            None => None,
        }
    }

    open spec fn failure(v: Self::V, vm: VersionMap, root: u16, e: VersionizeError, written: Seq<
        u8,
    >) -> bool {
        match A::wire(v.0, vm, root) {
            None => A::failure(v.0, vm, root, e, written),
            Some(x) => written.len() >= x.len() && written.take(x.len() as int) == x
                && B::failure(v.1, vm, root, e, written.skip(x.len() as int)),
        }
    }

    open spec fn at_root(v: Self::V, vm: VersionMap, root: u16) -> Self::V {
        (A::at_root(v.0, vm, root), B::at_root(v.1, vm, root))
    }

    fn serialize(&self, writer: &mut Vec<u8>, version_map: &VersionMap, target_version: u16) -> (r:
        VersionizeResult<()>) {
        match self.0.serialize(writer, version_map, target_version) {
            Ok(()) => {},
            Err(e) => {
                return Err(e);
            },
        }
        let ghost mid = writer@;
        let r = self.1.serialize(writer, version_map, target_version);
        proof {
            if A::wire(self.0@, *version_map, target_version) is Some && B::wire(
                self.1@,
                *version_map,
                target_version,
            ) is Some {
                assert(writer@ =~= old(writer)@ + A::wire(
                    self.0@,
                    *version_map,
                    target_version,
                )->Some_0 + B::wire(self.1@, *version_map, target_version)->Some_0);
            }
            if r is Err {
                let w = writer@.skip(old(writer)@.len() as int);
                let x = mid.skip(old(writer)@.len() as int);
                assert(x =~= A::wire(self.0@, *version_map, target_version)->Some_0);
                assert(w.take(x.len() as int) =~= x);
                assert(w.skip(x.len() as int) =~= writer@.skip(mid.len() as int));
                assert(old(writer)@.is_prefix_of(writer@)) by {
                    assert(old(writer)@.is_prefix_of(mid));
                    assert(mid.is_prefix_of(writer@));
                    assert forall|i: int| 0 <= i < old(writer)@.len() implies old(writer)@[i]
                        == writer@[i] by {
                        assert(old(writer)@[i] == mid[i]);
                    }
                }
            }
        }
        r
    }

    fn deserialize(reader: &[u8], version_map: &VersionMap, source_version: u16) -> (r:
        VersionizeResult<(Self, usize)>) {
        let (a, n) = match A::deserialize(reader, version_map, source_version) {
            Ok(p) => p,
            Err(e) => {
                return Err(e);
            },
        };
        let rest = &reader[n..reader.len()];
        assert(rest@ =~= reader@.skip(n as int));
        let (c, m) = match B::deserialize(rest, version_map, source_version) {
            Ok(p) => p,
            Err(e) => {
                return Err(e);
            },
        };
        Ok(((a, c), n + m))
    }

    open spec fn identity() -> u64 {
        pair_identity(A::identity(), B::identity())
    }

    fn type_id() -> (r: u64) {
        pair_id(A::type_id(), B::type_id())
    }

    open spec fn current_version() -> u16 {
        1
    }

    fn version() -> (r: u16) {
        1
    }

    proof fn lemma_read_within(b: Seq<u8>, vm: VersionMap, root: u16) {
        A::lemma_read_within(b, vm, root);
        let n = A::read(b, vm, root)->Some_0.1;
        B::lemma_read_within(b.skip(n as int), vm, root);
    }

    proof fn lemma_round_trip(v: Self::V, vm: VersionMap, root: u16, rest: Seq<u8>) {
        let x = A::wire(v.0, vm, root)->Some_0;
        let y = B::wire(v.1, vm, root)->Some_0;
        A::lemma_round_trip(v.0, vm, root, y + rest);
        B::lemma_round_trip(v.1, vm, root, rest);
        assert(x + y + rest =~= x + (y + rest));
        assert((x + y + rest).skip(x.len() as int) =~= y + rest);
    }
}

/// The version of type `T` in effect at root version `root`: what each
/// type resolves before it writes or reads its fields.
pub fn resolved_version<T: Versionize>(version_map: &VersionMap, root: u16) -> (r: u16)
    requires
        version_map.wf(),
        root <= version_map.latest_spec(),
    ensures
        r == version_map.resolve(root as int, T::identity()),
{
    version_map.get_type_version(root, T::type_id())
}

} // verus!
