//! A CRC-64 integrity trailer: eight bytes, least significant first, that
//! follow a payload and hold the checksum of it.
use vstd::prelude::*;

use crate::primitives::{le_bytes, lemma_le_len, write_u64};

verus! {

/// The number of bytes of a checksum trailer.
pub const CRC_LEN: usize = 8;

/// What `crc64::crc64` computes over `data`, continuing from `crc`.
pub uninterp spec fn crc64_of(crc: u64, data: Seq<u8>) -> u64;

/// Relies on `crc64::crc64`: the CRC-64 (Jones coefficients) of `data`,
/// continued from `crc`, which depends on its arguments alone.
#[verifier::external_body]
fn crc64_update(crc: u64, data: &[u8]) -> (r: u64)
    ensures
        r == crc64_of(crc, data@),
{
    crc64::crc64(crc, data)
}

/// The checksum of a whole payload.
pub open spec fn checksum_of(data: Seq<u8>) -> u64 {
    crc64_of(0, data)
}

/// The checksum of `data`, starting from zero.
pub fn checksum(data: &[u8]) -> (r: u64)
    ensures
        r == checksum_of(data@),
{
    crc64_update(0, data)
}

/// Whether `data` ends in a trailer that holds `crc`.
pub open spec fn trailer_holds(data: Seq<u8>, crc: u64) -> bool {
    data.len() >= CRC_LEN && data.subrange(data.len() - CRC_LEN, data.len() as int) == le_bytes(
        crc as nat,
        CRC_LEN as nat,
    )
}

/// The payload of `data`: everything before its trailer.
pub open spec fn payload_of(data: Seq<u8>) -> Seq<u8> {
    data.subrange(0, data.len() - CRC_LEN)
}

/// Whether `data` ends in a trailer that holds `crc`.
pub fn trailer_matches(data: &[u8], crc: u64) -> (r: bool)
    ensures
        r == trailer_holds(data@, crc),
{
    if data.len() < CRC_LEN {
        return false;
    }
    let mut expected: Vec<u8> = Vec::new();
    write_u64(&mut expected, crc);
    proof {
        lemma_le_len(crc as nat, 8);
    }
    let len = data.len();
    let start = len - CRC_LEN;
    let mut i: usize = 0;
    while i < CRC_LEN
        invariant
            i <= CRC_LEN,
            len == data@.len(),
            len >= CRC_LEN,
            start == len - CRC_LEN,
            expected@ == le_bytes(crc as nat, 8),
            expected@.len() == 8,
            forall|j: int| 0 <= j < i ==> data@[start + j] == expected@[j],
        decreases CRC_LEN - i,
    {
        if data[start + i] != expected[i] {
            assert(data@.subrange(start as int, data@.len() as int)[i as int] != expected@[i as int]);
            return false;
        }
        i = i + 1;
    }
    assert(data@.subrange(start as int, data@.len() as int) =~= expected@);
    true
}

/// Appends `payload` and then the trailer that holds its checksum.
pub fn write_with_checksum(payload: &[u8], writer: &mut Vec<u8>)
    ensures
        final(writer)@ == old(writer)@ + payload@ + le_bytes(checksum_of(payload@) as nat, 8),
{
    let crc = checksum(payload);
    let mut i: usize = 0;
    while i < payload.len()
        invariant
            i <= payload@.len(),
            writer@ == old(writer)@ + payload@.subrange(0, i as int),
        decreases payload@.len() - i,
    {
        writer.push(payload[i]);
        assert(payload@.subrange(0, i + 1) =~= payload@.subrange(0, i as int).push(
            payload@[i as int],
        ));
        i = i + 1;
    }
    assert(payload@.subrange(0, i as int) =~= payload@);
    write_u64(writer, crc);
}

/// Checks the trailer of `data` against the checksum of the payload before
/// it; returns the payload's length where they agree, and `None` where they
/// do not or `data` is shorter than a trailer. A payload is to be read only
/// after this has succeeded.
pub fn verify_checksum(data: &[u8]) -> (r: Option<usize>)
    ensures
        data@.len() < CRC_LEN ==> r is None,
        data@.len() >= CRC_LEN ==> (r is Some <==> trailer_holds(
            data@,
            checksum_of(payload_of(data@)),
        )),
        r matches Some(n) ==> n == data@.len() - CRC_LEN,
{
    if data.len() < CRC_LEN {
        return None;
    }
    let n = data.len() - CRC_LEN;
    let crc = checksum(&data[0..n]);
    if trailer_matches(data, crc) {
        Some(n)
    } else {
        None
    }
}

/// A payload written with its checksum passes the check, which gives back
/// the payload's length.
pub proof fn lemma_checksum_round_trip(payload: Seq<u8>)
    ensures
        ({
            let data = payload + le_bytes(checksum_of(payload) as nat, 8);
            &&& data.len() >= CRC_LEN
            &&& payload_of(data) == payload
            &&& trailer_holds(data, checksum_of(payload_of(data)))
        }),
{
    let crc = checksum_of(payload);
    lemma_le_len(crc as nat, 8);
    let data = payload + le_bytes(crc as nat, 8);
    assert(payload_of(data) =~= payload);
    assert(data.subrange(data.len() - CRC_LEN, data.len() as int) =~= le_bytes(crc as nat, 8));
}

} // verus!
