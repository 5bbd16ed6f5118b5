//! Little-endian numbers in byte sequences.
use byteorder::{ByteOrder, LittleEndian};
use vstd::prelude::*;

verus! {

/// The 16-bit number whose little-endian bytes stand at `at`.
pub open spec fn spec_read_u16(bytes: Seq<u8>, at: int) -> u16 {
    (bytes[at] as int + 256 * (bytes[at + 1] as int)) as u16
}

/// The 32-bit number whose little-endian bytes stand at `at`.
pub open spec fn spec_read_u32(bytes: Seq<u8>, at: int) -> u32 {
    (bytes[at] as int + 256 * (bytes[at + 1] as int) + 65536 * (bytes[at + 2] as int) + 16777216
        * (bytes[at + 3] as int)) as u32
}

/// The two little-endian bytes of a 16-bit number.
pub open spec fn spec_u16_bytes(v: u16) -> Seq<u8> {
    seq![(v as int % 256) as u8, (v as int / 256) as u8]
}

/// The four little-endian bytes of a 32-bit number.
pub open spec fn spec_u32_bytes(v: u32) -> Seq<u8> {
    seq![
        (v as int % 256) as u8,
        (v as int / 256 % 256) as u8,
        (v as int / 65536 % 256) as u8,
        (v as int / 16777216) as u8,
    ]
}

/// `byteorder::LittleEndian::read_u16`: the number that the first two
/// bytes of `buf` write, low byte first. The call panics on a shorter
/// buffer, which the precondition rules out.
#[verifier::external_body]
pub(crate) fn read_u16_le(buf: &[u8]) -> (v: u16)
    requires
        buf.len() >= 2,
    ensures
        v == spec_read_u16(buf@, 0),
{
    LittleEndian::read_u16(buf)
}

/// `byteorder::LittleEndian::read_u32`: the number that the first four
/// bytes of `buf` write, low byte first. The call panics on a shorter
/// buffer, which the precondition rules out.
#[verifier::external_body]
pub(crate) fn read_u32_le(buf: &[u8]) -> (v: u32)
    requires
        buf.len() >= 4,
    ensures
        v == spec_read_u32(buf@, 0),
{
    LittleEndian::read_u32(buf)
}

/// `byteorder::LittleEndian::write_u16` on a buffer of two bytes: the
/// bytes of `v`, low byte first.
#[verifier::external_body]
pub(crate) fn u16_le_bytes(v: u16) -> (buf: [u8; 2])
    ensures
        buf@ == spec_u16_bytes(v),
{
    let mut buf = [0u8; 2];
    LittleEndian::write_u16(&mut buf, v);
    buf
}

/// `byteorder::LittleEndian::write_u32` on a buffer of four bytes: the
/// bytes of `v`, low byte first.
#[verifier::external_body]
pub(crate) fn u32_le_bytes(v: u32) -> (buf: [u8; 4])
    ensures
        buf@ == spec_u32_bytes(v),
{
    let mut buf = [0u8; 4];
    LittleEndian::write_u32(&mut buf, v);
    buf
}

/// Reads the 16-bit number at `at`.
pub fn read_u16_at(bytes: &[u8], at: usize) -> (v: u16)
    requires
        at + 2 <= bytes.len(),
    ensures
        v == spec_read_u16(bytes@, at as int),
{
    read_u16_le(&bytes[at..at + 2])
}

/// Reads the 32-bit number at `at`.
pub fn read_u32_at(bytes: &[u8], at: usize) -> (v: u32)
    requires
        at + 4 <= bytes.len(),
    ensures
        v == spec_read_u32(bytes@, at as int),
{
    read_u32_le(&bytes[at..at + 4])
}

/// Appends the two bytes of a 16-bit number.
pub fn push_u16(out: &mut Vec<u8>, v: u16)
    ensures
        final(out)@ == old(out)@ + spec_u16_bytes(v),
{
    let buf = u16_le_bytes(v);
    out.push(buf[0]);
    out.push(buf[1]);
    assert(out@ =~= old(out)@ + spec_u16_bytes(v));
}

/// Appends the four bytes of a 32-bit number.
pub fn push_u32(out: &mut Vec<u8>, v: u32)
    ensures
        final(out)@ == old(out)@ + spec_u32_bytes(v),
{
    let buf = u32_le_bytes(v);
    out.push(buf[0]);
    out.push(buf[1]);
    out.push(buf[2]);
    out.push(buf[3]);
    assert(out@ =~= old(out)@ + spec_u32_bytes(v));
}

/// A 16-bit number is read back from its bytes.
pub proof fn lemma_u16_round_trip(v: u16)
    ensures
        spec_read_u16(spec_u16_bytes(v), 0) == v,
{
}

/// A 32-bit number is read back from its bytes.
pub proof fn lemma_u32_round_trip(v: u32)
    ensures
        spec_read_u32(spec_u32_bytes(v), 0) == v,
{
}

} // verus!
