use borsh::BorshDeserialize;
use vstd::prelude::*;

verus! {

/// The number that two little-endian bytes stand for.
pub open spec fn u16_of_le(s: Seq<u8>) -> u16
    recommends
        s.len() == 2,
{
    (s[0] as int + 0x100 * (s[1] as int)) as u16
}

/// The two little-endian bytes of a number.
pub open spec fn le_of_u16(v: u16) -> Seq<u8> {
    seq![(v % 0x100) as u8, (v / 0x100) as u8]
}

/// The number that four little-endian bytes stand for.
pub open spec fn u32_of_le(s: Seq<u8>) -> u32
    recommends
        s.len() == 4,
{
    (s[0] as int + 0x100 * (s[1] as int) + 0x1_0000 * (s[2] as int) + 0x100_0000 * (s[3] as int)) as u32
}

/// The four little-endian bytes of a number.
pub open spec fn le_of_u32(v: u32) -> Seq<u8> {
    seq![
        (v % 0x100) as u8,
        ((v / 0x100) % 0x100) as u8,
        ((v / 0x1_0000) % 0x100) as u8,
        (v / 0x100_0000) as u8,
    ]
}

/// The number that eight little-endian bytes stand for.
pub open spec fn u64_of_le(s: Seq<u8>) -> u64
    recommends
        s.len() == 8,
{
    (s[0] as int + 0x100 * (s[1] as int) + 0x1_0000 * (s[2] as int) + 0x100_0000 * (s[3] as int)
        + 0x1_0000_0000 * (s[4] as int) + 0x100_0000_0000 * (s[5] as int) + 0x1_0000_0000_0000 * (
    s[6] as int) + 0x100_0000_0000_0000 * (s[7] as int)) as u64
}

/// The eight little-endian bytes of a number.
pub open spec fn le_of_u64(v: u64) -> Seq<u8> {
    seq![
        (v % 0x100) as u8,
        ((v / 0x100) % 0x100) as u8,
        ((v / 0x1_0000) % 0x100) as u8,
        ((v / 0x100_0000) % 0x100) as u8,
        ((v / 0x1_0000_0000) % 0x100) as u8,
        ((v / 0x100_0000_0000) % 0x100) as u8,
        ((v / 0x1_0000_0000_0000) % 0x100) as u8,
        (v / 0x100_0000_0000_0000) as u8,
    ]
}

/// `data` with the bytes from `at` on replaced by `bytes`; the length stays.
pub open spec fn splice(data: Seq<u8>, at: int, bytes: Seq<u8>) -> Seq<u8> {
    Seq::new(
        data.len(),
        |i: int|
            if at <= i < at + bytes.len() {
                bytes[i - at]
            } else {
                data[i]
            },
    )
}

/// Dividing by a power of 256 is dividing by 256 again and again.
proof fn lemma_div_chain(v: int)
    requires
        0 <= v,
    ensures
        v / 0x1_0000 == (v / 0x100) / 0x100,
        v / 0x100_0000 == (v / 0x1_0000) / 0x100,
        v / 0x1_0000_0000 == (v / 0x100_0000) / 0x100,
        v / 0x100_0000_0000 == (v / 0x1_0000_0000) / 0x100,
        v / 0x1_0000_0000_0000 == (v / 0x100_0000_0000) / 0x100,
        v / 0x100_0000_0000_0000 == (v / 0x1_0000_0000_0000) / 0x100,
{
    assert(v / 0x1_0000 == (v / 0x100) / 0x100);
    assert(v / 0x100_0000 == (v / 0x1_0000) / 0x100);
    assert(v / 0x1_0000_0000 == (v / 0x100_0000) / 0x100);
    assert(v / 0x100_0000_0000 == (v / 0x1_0000_0000) / 0x100);
    assert(v / 0x1_0000_0000_0000 == (v / 0x100_0000_0000) / 0x100);
    assert(v / 0x100_0000_0000_0000 == (v / 0x1_0000_0000_0000) / 0x100);
}

/// Decoding undoes encoding of a `u16`.
pub proof fn lemma_u16_round_trip(v: u16)
    ensures
        le_of_u16(v).len() == 2,
        u16_of_le(le_of_u16(v)) == v,
{
}

/// Decoding undoes encoding of a `u32`.
pub proof fn lemma_u32_round_trip(v: u32)
    ensures
        le_of_u32(v).len() == 4,
        u32_of_le(le_of_u32(v)) == v,
{
    lemma_div_chain(v as int);
}

/// Decoding undoes encoding of a `u64`.
pub proof fn lemma_u64_round_trip(v: u64)
    ensures
        le_of_u64(v).len() == 8,
        u64_of_le(le_of_u64(v)) == v,
{
    lemma_div_chain(v as int);
    let s = le_of_u64(v);
    let q1 = v as int / 0x100;
    let q2 = q1 / 0x100;
    let q3 = q2 / 0x100;
    let q4 = q3 / 0x100;
    let q5 = q4 / 0x100;
    let q6 = q5 / 0x100;
    let q7 = q6 / 0x100;
    assert(q7 < 0x100);
    assert(s[0] as int == v as int % 0x100);
    assert(s[1] as int == q1 % 0x100);
    assert(s[2] as int == q2 % 0x100);
    assert(s[3] as int == q3 % 0x100);
    assert(s[4] as int == q4 % 0x100);
    assert(s[5] as int == q5 % 0x100);
    assert(s[6] as int == q6 % 0x100);
    assert(s[7] as int == q7);
    assert(q6 == 0x100 * q7 + s[6] as int);
    assert(q5 == 0x100 * q6 + s[5] as int);
    assert(q4 == 0x100 * q5 + s[4] as int);
    assert(q3 == 0x100 * q4 + s[3] as int);
    assert(q2 == 0x100 * q3 + s[2] as int);
    assert(q1 == 0x100 * q2 + s[1] as int);
    assert(v as int == 0x100 * q1 + s[0] as int);
}

/// Encoding undoes decoding of two bytes.
pub proof fn lemma_u16_of_decoded(s: Seq<u8>)
    requires
        s.len() == 2,
    ensures
        le_of_u16(u16_of_le(s)) == s,
{
    assert(le_of_u16(u16_of_le(s)) =~= s);
}

/// Encoding undoes decoding of four bytes.
pub proof fn lemma_u32_of_decoded(s: Seq<u8>)
    requires
        s.len() == 4,
    ensures
        le_of_u32(u32_of_le(s)) == s,
{
    let v = u32_of_le(s);
    lemma_div_chain(v as int);
    let q1 = s[1] as int + 0x100 * (s[2] as int + 0x100 * (s[3] as int));
    let q2 = s[2] as int + 0x100 * (s[3] as int);
    assert(v as int == s[0] as int + 0x100 * q1);
    assert(v as int / 0x100 == q1);
    assert(q1 / 0x100 == q2);
    assert(q2 / 0x100 == s[3] as int);
    assert(le_of_u32(v) =~= s);
}

/// Encoding undoes decoding of eight bytes.
pub proof fn lemma_u64_of_decoded(s: Seq<u8>)
    requires
        s.len() == 8,
    ensures
        le_of_u64(u64_of_le(s)) == s,
{
    let v = u64_of_le(s);
    lemma_div_chain(v as int);
    let q7 = s[7] as int;
    let q6 = s[6] as int + 0x100 * q7;
    let q5 = s[5] as int + 0x100 * q6;
    let q4 = s[4] as int + 0x100 * q5;
    let q3 = s[3] as int + 0x100 * q4;
    let q2 = s[2] as int + 0x100 * q3;
    let q1 = s[1] as int + 0x100 * q2;
    assert(v as int == s[0] as int + 0x100 * q1);
    assert(v as int / 0x100 == q1);
    assert(q1 / 0x100 == q2);
    assert(q2 / 0x100 == q3);
    assert(q3 / 0x100 == q4);
    assert(q4 / 0x100 == q5);
    assert(q5 / 0x100 == q6);
    assert(q6 / 0x100 == q7);
    assert(le_of_u64(v) =~= s);
}

/// The zero of each width is encoded by zero bytes, and zero bytes decode to zero.
pub proof fn lemma_le_zero(s: Seq<u8>)
    requires
        forall|i: int| 0 <= i < s.len() ==> s[i] == 0u8,
    ensures
        s.len() == 2 ==> u16_of_le(s) == 0,
        s.len() == 4 ==> u32_of_le(s) == 0,
        s.len() == 8 ==> u64_of_le(s) == 0,
{
}

/// Reads a `u16` with `borsh`'s `BorshDeserialize::try_from_slice`. Trusted: the call
/// succeeds exactly on two bytes and then gives the number they encode, low byte
/// first.
#[verifier::external_body]
pub(crate) fn decode_u16(bytes: &[u8]) -> (r: Option<u16>)
    ensures
        r == if bytes@.len() == 2 {
            Some(u16_of_le(bytes@))
        } else {
            None
        },
{
    u16::try_from_slice(bytes).ok()
}

/// Reads a `u32` with `borsh`'s `BorshDeserialize::try_from_slice`. Trusted: the call
/// succeeds exactly on four bytes and then gives the number they encode, low byte
/// first.
#[verifier::external_body]
pub(crate) fn decode_u32(bytes: &[u8]) -> (r: Option<u32>)
    ensures
        r == if bytes@.len() == 4 {
            Some(u32_of_le(bytes@))
        } else {
            None
        },
{
    u32::try_from_slice(bytes).ok()
}

/// Reads a `u64` with `borsh`'s `BorshDeserialize::try_from_slice`. Trusted: the call
/// succeeds exactly on eight bytes and then gives the number they encode, low byte
/// first.
#[verifier::external_body]
pub(crate) fn decode_u64(bytes: &[u8]) -> (r: Option<u64>)
    ensures
        r == if bytes@.len() == 8 {
            Some(u64_of_le(bytes@))
        } else {
            None
        },
{
    u64::try_from_slice(bytes).ok()
}

/// Writes a `u16` into `data` at `at` with `borsh::to_writer`. Trusted: the two bytes
/// from `at` on become the number's little-endian bytes, nothing else changes, and
/// the call reports success.
#[verifier::external_body]
pub(crate) fn encode_u16(data: &mut [u8], at: usize, value: u16) -> (ok: bool)
    requires
        at + 2 <= old(data)@.len(),
    ensures
        ok,
        final(data)@ == splice(old(data)@, at as int, le_of_u16(value)),
{
    borsh::to_writer(&mut data[at..at + 2], &value).is_ok()
}

/// Writes a `u32` into `data` at `at` with `borsh::to_writer`. Trusted: the four
/// bytes from `at` on become the number's little-endian bytes, nothing else changes,
/// and the call reports success.
#[verifier::external_body]
pub(crate) fn encode_u32(data: &mut [u8], at: usize, value: u32) -> (ok: bool)
    requires
        at + 4 <= old(data)@.len(),
    ensures
        ok,
        final(data)@ == splice(old(data)@, at as int, le_of_u32(value)),
{
    borsh::to_writer(&mut data[at..at + 4], &value).is_ok()
}

/// Writes a `u64` into `data` at `at` with `borsh::to_writer`. Trusted: the eight
/// bytes from `at` on become the number's little-endian bytes, nothing else changes,
/// and the call reports success.
#[verifier::external_body]
pub(crate) fn encode_u64(data: &mut [u8], at: usize, value: u64) -> (ok: bool)
    requires
        at + 8 <= old(data)@.len(),
    ensures
        ok,
        final(data)@ == splice(old(data)@, at as int, le_of_u64(value)),
{
    borsh::to_writer(&mut data[at..at + 8], &value).is_ok()
}

} // verus!
