//! Fixed-width, allocation-bounded encodings of lengths, byte sequences and
//! strings. A length prefix is eight bytes, least significant first.
use vstd::prelude::*;
use vstd::utf8::{decode_utf8, encode_utf8, encode_utf8_decode_utf8, encode_utf8_valid_utf8, valid_utf8};

use crate::{VersionizeError, VersionizeResult};

verus! {

/// The longest string, in bytes, that is written or read.
pub const MAX_STRING_LEN: usize = 16384;

/// The longest byte sequence that is written or read.
pub const MAX_VEC_LEN: usize = 10485760;

/// The number of bytes of a length prefix.
pub const LEN_PREFIX: usize = 8;

/// The `k` lowest bytes of `n`, least significant first.
pub open spec fn le_bytes(n: nat, k: nat) -> Seq<u8>
    decreases k,
{
    if k == 0 {
        Seq::<u8>::empty()
    } else {
        seq![(n % 256) as u8] + le_bytes(n / 256, (k - 1) as nat)
    }
}

/// The number that bytes written least significant first stand for.
pub open spec fn le_value(b: Seq<u8>) -> nat
    decreases b.len(),
{
    if b.len() == 0 {
        0
    } else {
        b[0] as nat + 256 * le_value(b.drop_first())
    }
}

/// `256` to the power `k`.
pub open spec fn pow256(k: nat) -> nat
    decreases k,
{
    if k == 0 {
        1
    } else {
        256 * pow256((k - 1) as nat)
    }
}

/// The wire form of a byte sequence: its length, then its bytes.
pub open spec fn bytes_wire(v: Seq<u8>) -> Seq<u8> {
    le_bytes(v.len(), LEN_PREFIX as nat) + v
}

/// The wire form of a string: the length of its UTF-8 bytes, then those bytes.
pub open spec fn string_wire(s: Seq<char>) -> Seq<u8> {
    bytes_wire(encode_utf8(s))
}

/// The length prefix at the start of `b`.
pub open spec fn prefix_of(b: Seq<u8>) -> nat {
    le_value(b.subrange(0, LEN_PREFIX as int))
}

/// The `k` lowest bytes of `n` are the bytes of a number below `256^k`.
proof fn lemma_le_round_trip(n: nat, k: nat)
    requires
        n < pow256(k),
    ensures
        le_bytes(n, k).len() == k,
        le_value(le_bytes(n, k)) == n,
    decreases k,
{
    if k > 0 {
        let p = pow256((k - 1) as nat);
        assert(n / 256 < p) by (nonlinear_arith)
            requires
                n < 256 * p,
        ;
        lemma_le_round_trip(n / 256, (k - 1) as nat);
        assert(le_bytes(n, k).drop_first() =~= le_bytes(n / 256, (k - 1) as nat));
        assert(n % 256 + 256 * (n / 256) == n) by (nonlinear_arith);
    }
}

proof fn lemma_pow256_8()
    ensures
        pow256(8) == 0x1_0000_0000_0000_0000,
{
    reveal_with_fuel(pow256, 9);
}

/// Appends the eight bytes of `n`, least significant first.
pub fn write_u64(writer: &mut Vec<u8>, n: u64)
    ensures
        final(writer)@ == old(writer)@ + le_bytes(n as nat, 8),
{
    let mut x: u64 = n;
    let mut k: usize = 0;
    while k < 8
        invariant
            k <= 8,
            old(writer)@ + le_bytes(n as nat, 8) == writer@ + le_bytes(x as nat, (8 - k) as nat),
        decreases 8 - k,
    {
        let ghost before = writer@;
        writer.push((x % 256) as u8);
        assert(before + le_bytes(x as nat, (8 - k) as nat) =~= writer@ + le_bytes(
            (x / 256) as nat,
            (8 - k - 1) as nat,
        ));
        x = x / 256;
        k = k + 1;
    }
    assert(writer@ + le_bytes(x as nat, 0) =~= writer@);
}

/// The number in the eight bytes at the start of `reader`; `None` where
/// there are fewer.
pub fn read_u64(reader: &[u8]) -> (r: Option<u64>)
    ensures
        reader@.len() >= LEN_PREFIX ==> r == Some(prefix_of(reader@) as u64) && prefix_of(reader@)
            < 0x1_0000_0000_0000_0000,
        reader@.len() < LEN_PREFIX ==> r is None,
{
    if reader.len() < LEN_PREFIX {
        return None;
    }
    let ghost b = reader@.subrange(0, 8);
    let mut v: u64 = 0;
    let mut k: usize = 8;
    assert(b.subrange(8, 8) =~= Seq::<u8>::empty());
    while k > 0
        invariant
            k <= 8,
            reader@.len() >= 8,
            b == reader@.subrange(0, 8),
            v as nat == le_value(b.subrange(k as int, 8)),
            (v as nat) < pow256((8 - k) as nat),
        decreases k,
    {
        let byte = reader[k - 1];
        assert(b.subrange(k - 1, 8).drop_first() =~= b.subrange(k as int, 8));
        let ghost p = pow256((8 - k) as nat);
        assert(pow256((8 - k + 1) as nat) == 256 * p);
        assert(v * 256 + byte < 256 * p) by (nonlinear_arith)
            requires
                v < p,
                byte < 256,
        ;
        proof {
            lemma_pow256_8();
            assert(p <= pow256(7)) by {
                lemma_pow256_mono((8 - k) as nat, 7);
            }
        }
        v = v * 256 + byte as u64;
        k = k - 1;
    }
    proof {
        lemma_pow256_8();
        assert(b.subrange(0, 8) =~= b);
    }
    Some(v)
}

proof fn lemma_pow256_mono(a: nat, b: nat)
    requires
        a <= b,
    ensures
        pow256(a) <= pow256(b),
    decreases b,
{
    if a < b {
        lemma_pow256_mono(a, (b - 1) as nat);
    }
}

/// Appends every byte of `bytes`.
fn push_all(writer: &mut Vec<u8>, bytes: &[u8])
    ensures
        final(writer)@ == old(writer)@ + bytes@,
{
    let mut i: usize = 0;
    while i < bytes.len()
        invariant
            i <= bytes@.len(),
            writer@ == old(writer)@ + bytes@.subrange(0, i as int),
        decreases bytes@.len() - i,
    {
        writer.push(bytes[i]);
        assert(bytes@.subrange(0, i + 1) =~= bytes@.subrange(0, i as int).push(bytes@[i as int]));
        i = i + 1;
    }
    assert(bytes@.subrange(0, i as int) =~= bytes@);
}

/// Writes a byte sequence as its length and its bytes. One longer than
/// `MAX_VEC_LEN` fails with `VecLength`, carrying its length, and writes
/// nothing.
pub fn serialize_bytes(v: &[u8], writer: &mut Vec<u8>) -> (r: VersionizeResult<()>)
    ensures
        v@.len() <= MAX_VEC_LEN ==> r is Ok && final(writer)@ == old(writer)@ + bytes_wire(v@),
        v@.len() > MAX_VEC_LEN ==> r == Err::<(), VersionizeError>(
            VersionizeError::VecLength(v@.len() as usize),
        ) && final(writer)@ == old(writer)@,
{
    if v.len() > MAX_VEC_LEN {
        return Err(VersionizeError::VecLength(v.len()));
    }
    write_u64(writer, v.len() as u64);
    push_all(writer, v);
    assert(writer@ =~= old(writer)@ + bytes_wire(v@));
    Ok(())
}

/// Reads the length prefix at the start of `reader` and checks the bound;
/// on success returns the length, with the whole payload present.
fn read_len(reader: &[u8], max: usize, is_string: bool) -> (r: VersionizeResult<usize>)
    ensures
        reader@.len() < LEN_PREFIX ==> r matches Err(VersionizeError::Deserialize(_)),
        reader@.len() >= LEN_PREFIX ==> {
            let n = prefix_of(reader@);
            if n > max {
                if is_string {
                    r == Err::<usize, VersionizeError>(VersionizeError::StringLength(n as usize))
                } else {
                    r == Err::<usize, VersionizeError>(VersionizeError::VecLength(n as usize))
                }
            } else if LEN_PREFIX + n > reader@.len() {
                r matches Err(VersionizeError::Deserialize(_))
            } else {
                r == Ok::<usize, VersionizeError>(n as usize)
            }
        },
{
    let n = match read_u64(reader) {
        Some(n) => n,
        None => {
            return Err(VersionizeError::Deserialize(String::from_str("length prefix cut short")));
        },
    };
    if n > max as u64 {
        if is_string {
            return Err(VersionizeError::StringLength(n as usize));
        } else {
            return Err(VersionizeError::VecLength(n as usize));
        }
    }
    let len = n as usize;
    if len > reader.len() - LEN_PREFIX {
        return Err(VersionizeError::Deserialize(String::from_str("payload cut short")));
    }
    Ok(len)
}

/// Reads a byte sequence written by `serialize_bytes` from the start of
/// `reader`, with the number of bytes it took. A length above `MAX_VEC_LEN`
/// fails with `VecLength` before anything is copied; a stream that ends
/// early fails with `Deserialize`.
pub fn deserialize_bytes(reader: &[u8]) -> (r: VersionizeResult<(Vec<u8>, usize)>)
    ensures
        reader@.len() < LEN_PREFIX ==> r matches Err(VersionizeError::Deserialize(_)),
        reader@.len() >= LEN_PREFIX ==> {
            let n = prefix_of(reader@);
            if n > MAX_VEC_LEN {
                r matches Err(VersionizeError::VecLength(m)) && m == n as usize
            } else if LEN_PREFIX + n > reader@.len() {
                r matches Err(VersionizeError::Deserialize(_))
            } else {
                r is Ok && r->Ok_0.0@ == reader@.subrange(LEN_PREFIX as int, LEN_PREFIX + n)
                    && r->Ok_0.1 == LEN_PREFIX + n
            }
        },
{
    let len = match read_len(reader, MAX_VEC_LEN, false) {
        Ok(len) => len,
        Err(e) => {
            return Err(e);
        },
    };
    let mut out: Vec<u8> = Vec::new();
    push_all(&mut out, &reader[LEN_PREFIX..LEN_PREFIX + len]);
    Ok((out, LEN_PREFIX + len))
}

/// Relies on `String::from_utf8`: it succeeds exactly on valid UTF-8, and
/// then holds the characters those bytes encode.
#[verifier::external_body]
fn string_from_utf8(b: Vec<u8>) -> (r: Result<String, String>)
    ensures
        r is Ok <==> valid_utf8(b@),
        r is Ok ==> r->Ok_0@ == decode_utf8(b@),
{
    match String::from_utf8(b) {
        Ok(s) => Ok(s),
        Err(e) => Err(e.to_string()),
    }
}

/// Writes a string as the length of its UTF-8 bytes and those bytes. One
/// longer than `MAX_STRING_LEN` bytes fails with `StringLength`, carrying its
/// length, and writes nothing.
pub fn serialize_string(s: &str, writer: &mut Vec<u8>) -> (r: VersionizeResult<()>)
    ensures
        encode_utf8(s@).len() <= MAX_STRING_LEN ==> r is Ok && final(writer)@ == old(writer)@
            + string_wire(s@),
        encode_utf8(s@).len() > MAX_STRING_LEN ==> r == Err::<(), VersionizeError>(
            VersionizeError::StringLength(encode_utf8(s@).len() as usize),
        ) && final(writer)@ == old(writer)@,
{
    let bytes = s.as_bytes();
    if bytes.len() > MAX_STRING_LEN {
        return Err(VersionizeError::StringLength(bytes.len()));
    }
    write_u64(writer, bytes.len() as u64);
    push_all(writer, bytes);
    assert(writer@ =~= old(writer)@ + string_wire(s@));
    Ok(())
}

/// Reads a string written by `serialize_string` from the start of `reader`,
/// with the number of bytes it took. A length above `MAX_STRING_LEN` fails
/// with `StringLength` before anything is copied; a stream that ends early,
/// or bytes that are not UTF-8, fail with `Deserialize`.
pub fn deserialize_string(reader: &[u8]) -> (r: VersionizeResult<(String, usize)>)
    ensures
        reader@.len() < LEN_PREFIX ==> r matches Err(VersionizeError::Deserialize(_)),
        reader@.len() >= LEN_PREFIX ==> {
            let n = prefix_of(reader@);
            let payload = reader@.subrange(LEN_PREFIX as int, LEN_PREFIX + n);
            if n > MAX_STRING_LEN {
                r matches Err(VersionizeError::StringLength(m)) && m == n as usize
            } else if LEN_PREFIX + n > reader@.len() || !valid_utf8(payload) {
                r matches Err(VersionizeError::Deserialize(_))
            } else {
                r is Ok && r->Ok_0.0@ == decode_utf8(payload) && r->Ok_0.1 == LEN_PREFIX + n
            }
        },
{
    let len = match read_len(reader, MAX_STRING_LEN, true) {
        Ok(len) => len,
        Err(e) => {
            return Err(e);
        },
    };
    let mut out: Vec<u8> = Vec::new();
    push_all(&mut out, &reader[LEN_PREFIX..LEN_PREFIX + len]);
    match string_from_utf8(out) {
        Ok(s) => Ok((s, LEN_PREFIX + len)),
        Err(e) => Err(VersionizeError::Deserialize(e)),
    }
}

/// A byte sequence within the bound is read back unchanged from its wire
/// form, whatever bytes follow it, taking exactly that form's length.
pub proof fn lemma_bytes_round_trip(v: Seq<u8>, rest: Seq<u8>)
    requires
        v.len() <= MAX_VEC_LEN,
    ensures
        ({
            let b = bytes_wire(v) + rest;
            &&& b.len() >= LEN_PREFIX
            &&& prefix_of(b) == v.len()
            &&& LEN_PREFIX + v.len() <= b.len()
            &&& b.subrange(LEN_PREFIX as int, LEN_PREFIX + v.len()) == v
            &&& bytes_wire(v).len() == LEN_PREFIX + v.len()
        }),
{
    lemma_pow256_8();
    lemma_le_round_trip(v.len(), 8);
    let b = bytes_wire(v) + rest;
    assert(b.subrange(0, 8) =~= le_bytes(v.len(), 8));
    assert(b.subrange(8, 8 + v.len() as int) =~= v);
}

/// A string within the bound is read back unchanged from its wire form,
/// whatever bytes follow it.
pub proof fn lemma_string_round_trip(s: Seq<char>, rest: Seq<u8>)
    requires
        encode_utf8(s).len() <= MAX_STRING_LEN,
    ensures
        ({
            let b = string_wire(s) + rest;
            let n = prefix_of(b);
            &&& b.len() >= LEN_PREFIX
            &&& n == encode_utf8(s).len()
            &&& LEN_PREFIX + n <= b.len()
            &&& valid_utf8(b.subrange(LEN_PREFIX as int, LEN_PREFIX + n))
            &&& decode_utf8(b.subrange(LEN_PREFIX as int, LEN_PREFIX + n)) == s
        }),
{
    lemma_bytes_round_trip(encode_utf8(s), rest);
    encode_utf8_valid_utf8(s);
    encode_utf8_decode_utf8(s);
}

/// The `k` lowest bytes of a number are `k` bytes.
pub proof fn lemma_le_len(n: nat, k: nat)
    ensures
        le_bytes(n, k).len() == k,
    decreases k,
{
    if k > 0 {
        lemma_le_len(n / 256, (k - 1) as nat);
    }
}

/// A number written as eight bytes is read back unchanged, whatever bytes
/// follow it.
pub proof fn lemma_u64_round_trip(n: u64, rest: Seq<u8>)
    ensures
        le_bytes(n as nat, 8).len() == LEN_PREFIX,
        (le_bytes(n as nat, 8) + rest).len() >= LEN_PREFIX,
        prefix_of(le_bytes(n as nat, 8) + rest) as u64 == n,
        prefix_of(le_bytes(n as nat, 8) + rest) == n as nat,
{
    lemma_pow256_8();
    lemma_le_round_trip(n as nat, 8);
    assert((le_bytes(n as nat, 8) + rest).subrange(0, 8) =~= le_bytes(n as nat, 8));
}

} // verus!
