use vstd::bytes::*;
use vstd::prelude::*;
use vstd::slice::slice_subrange;

use crate::reading::{CTReading, CT};
use crate::storage::CTStorage;

verus! {

/// Size in bytes of one encoded record.
pub const CT_READING_SIZE: usize = 30;

/// The buffer handed to the codec has the wrong size for the value.
#[derive(Clone, Copy, Debug, PartialEq, Eq, Structural)]
pub enum CodecError {
    BufferSizeMismatch,
}

/// `buf` with the bytes from `offset` on replaced by `bytes`.
pub open spec fn overwrite(buf: Seq<u8>, offset: int, bytes: Seq<u8>) -> Seq<u8> {
    buf.subrange(0, offset) + bytes + buf.subrange(offset + bytes.len(), buf.len() as int)
}

/// Writing `bytes` at `offset` turns `old_buf` into `new_buf` and returns
/// `r`: the number of bytes when they fit, else an error, with the buffer
/// left as it was.
pub open spec fn put_result(
    old_buf: Seq<u8>,
    new_buf: Seq<u8>,
    offset: int,
    bytes: Seq<u8>,
    r: Result<usize, CodecError>,
) -> bool {
    if offset + bytes.len() <= old_buf.len() {
        r == Ok::<usize, CodecError>(bytes.len() as usize) && new_buf == overwrite(
            old_buf,
            offset,
            bytes,
        )
    } else {
        r == Err::<usize, CodecError>(CodecError::BufferSizeMismatch) && new_buf == old_buf
    }
}

/// Copies `bytes` into `buf` from `offset` on.
fn put_bytes(bytes: &Vec<u8>, buf: &mut [u8], offset: usize) -> (r: Result<usize, CodecError>)
    ensures
        put_result(old(buf)@, final(buf)@, offset as int, bytes@, r),
{
    let n = bytes.len();
    if n > buf.len() || offset > buf.len() - n {
        return Err(CodecError::BufferSizeMismatch);
    }
    let len = buf.len();
    let ghost before = buf@;
    let mut i: usize = 0;
    while i < n
        invariant
            n == bytes@.len(),
            offset + n <= buf@.len(),
            buf@.len() == before.len(),
            buf@.len() == len,
            0 <= i <= n,
            forall|j: int| 0 <= j < offset ==> buf@[j] == before[j],
            forall|j: int| offset + n <= j < buf@.len() ==> buf@[j] == before[j],
            forall|j: int| offset <= j < offset + i ==> buf@[j] == bytes@[j - offset],
        decreases n - i,
    {
        buf[offset + i] = bytes[i];
        i = i + 1;
    }
    assert(buf@ =~= overwrite(before, offset as int, bytes@));
    Ok(n)
}

/// Writes `val` little-endian at `offset`; returns the number of bytes written.
pub fn add_u16_to_buf(val: &u16, buf: &mut [u8], offset: &usize) -> (r: Result<usize, CodecError>)
    ensures
        put_result(old(buf)@, final(buf)@, *offset as int, spec_u16_to_le_bytes(*val), r),
{
    let bytes = u16_to_le_bytes(*val);
    put_bytes(&bytes, buf, *offset)
}

/// Writes a 32-bit float, given by its IEEE-754 bit pattern, little-endian at
/// `offset`; returns the number of bytes written.
pub fn add_f32_to_buf(val: &u32, buf: &mut [u8], offset: &usize) -> (r: Result<usize, CodecError>)
    ensures
        put_result(old(buf)@, final(buf)@, *offset as int, spec_u32_to_le_bytes(*val), r),
{
    let bytes = u32_to_le_bytes(*val);
    put_bytes(&bytes, buf, *offset)
}

/// Writes `val` little-endian at `offset`; returns the number of bytes written.
pub fn add_u64_to_buf(val: &u64, buf: &mut [u8], offset: &usize) -> (r: Result<usize, CodecError>)
    ensures
        put_result(old(buf)@, final(buf)@, *offset as int, spec_u64_to_le_bytes(*val), r),
{
    let bytes = u64_to_le_bytes(*val);
    put_bytes(&bytes, buf, *offset)
}

/// The 30-byte record of one channel: the id as a u16, then real power,
/// apparent power, current RMS, voltage RMS and energy as 32-bit floats, then
/// the timestamp as a u64, all little-endian.
pub open spec fn record_bytes(ct: CT) -> Seq<u8> {
    spec_u16_to_le_bytes(ct.id) + spec_u32_to_le_bytes(ct.reading.real_power)
        + spec_u32_to_le_bytes(ct.reading.apparent_power) + spec_u32_to_le_bytes(ct.reading.i_rms)
        + spec_u32_to_le_bytes(ct.reading.v_rms) + spec_u32_to_le_bytes(ct.reading.kwh)
        + spec_u64_to_le_bytes(ct.reading.timestamp)
}

/// The channel and reading that a 30-byte record holds.
pub open spec fn parse_record(s: Seq<u8>) -> CT {
    CT {
        id: spec_u16_from_le_bytes(s.subrange(0, 2)),
        reading: CTReading {
            real_power: spec_u32_from_le_bytes(s.subrange(2, 6)),
            apparent_power: spec_u32_from_le_bytes(s.subrange(6, 10)),
            i_rms: spec_u32_from_le_bytes(s.subrange(10, 14)),
            v_rms: spec_u32_from_le_bytes(s.subrange(14, 18)),
            kwh: spec_u32_from_le_bytes(s.subrange(18, 22)),
            timestamp: spec_u64_from_le_bytes(s.subrange(22, 30)),
        },
    }
}

proof fn lemma_field_lengths(ct: CT)
    ensures
        spec_u16_to_le_bytes(ct.id).len() == 2,
        spec_u32_to_le_bytes(ct.reading.real_power).len() == 4,
        spec_u32_to_le_bytes(ct.reading.apparent_power).len() == 4,
        spec_u32_to_le_bytes(ct.reading.i_rms).len() == 4,
        spec_u32_to_le_bytes(ct.reading.v_rms).len() == 4,
        spec_u32_to_le_bytes(ct.reading.kwh).len() == 4,
        spec_u64_to_le_bytes(ct.reading.timestamp).len() == 8,
        record_bytes(ct).len() == CT_READING_SIZE,
{
    lemma_auto_spec_u16_to_from_le_bytes();
    lemma_auto_spec_u32_to_from_le_bytes();
    lemma_auto_spec_u64_to_from_le_bytes();
}

/// Decoding an encoded record gives back the channel id and the reading, and
/// every record is exactly 30 bytes long.
pub proof fn lemma_record_round_trip(ct: CT)
    ensures
        record_bytes(ct).len() == CT_READING_SIZE,
        parse_record(record_bytes(ct)) == ct,
{
    lemma_field_lengths(ct);
    lemma_auto_spec_u16_to_from_le_bytes();
    lemma_auto_spec_u32_to_from_le_bytes();
    lemma_auto_spec_u64_to_from_le_bytes();
    let s = record_bytes(ct);
    assert(s.subrange(0, 2) =~= spec_u16_to_le_bytes(ct.id));
    assert(s.subrange(2, 6) =~= spec_u32_to_le_bytes(ct.reading.real_power));
    assert(s.subrange(6, 10) =~= spec_u32_to_le_bytes(ct.reading.apparent_power));
    assert(s.subrange(10, 14) =~= spec_u32_to_le_bytes(ct.reading.i_rms));
    assert(s.subrange(14, 18) =~= spec_u32_to_le_bytes(ct.reading.v_rms));
    assert(s.subrange(18, 22) =~= spec_u32_to_le_bytes(ct.reading.kwh));
    assert(s.subrange(22, 30) =~= spec_u64_to_le_bytes(ct.reading.timestamp));
}

/// Every 30-byte sequence is the record of the value it decodes to, so the
/// codec is a bijection between channel readings and 30-byte records.
pub proof fn lemma_record_bytes_of_parse(s: Seq<u8>)
    requires
        s.len() == CT_READING_SIZE,
    ensures
        record_bytes(parse_record(s)) == s,
{
    lemma_auto_spec_u16_to_from_le_bytes();
    lemma_auto_spec_u32_to_from_le_bytes();
    lemma_auto_spec_u64_to_from_le_bytes();
    let ct = parse_record(s);
    assert(spec_u16_to_le_bytes(ct.id) == s.subrange(0, 2));
    assert(spec_u32_to_le_bytes(ct.reading.real_power) == s.subrange(2, 6));
    assert(spec_u32_to_le_bytes(ct.reading.apparent_power) == s.subrange(6, 10));
    assert(spec_u32_to_le_bytes(ct.reading.i_rms) == s.subrange(10, 14));
    assert(spec_u32_to_le_bytes(ct.reading.v_rms) == s.subrange(14, 18));
    assert(spec_u32_to_le_bytes(ct.reading.kwh) == s.subrange(18, 22));
    assert(spec_u64_to_le_bytes(ct.reading.timestamp) == s.subrange(22, 30));
    assert(record_bytes(ct) =~= s);
}

impl CTStorage {
    /// Encodes the channel's id and accumulated reading as one record.
    pub fn ct_reading_to_le_bytes(ct: &CT) -> (r: [u8; CT_READING_SIZE])
        ensures
            r@ == record_bytes(*ct),
    {
        proof {
            lemma_field_lengths(*ct);
        }
        let mut buf = [0u8; CT_READING_SIZE];
        let ghost zeros = buf@;
        let mut pos: usize = 0;
        pos = pos + add_u16_to_buf(&ct.id, &mut buf, &pos).unwrap();
        pos = pos + add_f32_to_buf(&ct.reading.real_power, &mut buf, &pos).unwrap();
        pos = pos + add_f32_to_buf(&ct.reading.apparent_power, &mut buf, &pos).unwrap();
        pos = pos + add_f32_to_buf(&ct.reading.i_rms, &mut buf, &pos).unwrap();
        pos = pos + add_f32_to_buf(&ct.reading.v_rms, &mut buf, &pos).unwrap();
        pos = pos + add_f32_to_buf(&ct.reading.kwh, &mut buf, &pos).unwrap();
        let _ = add_u64_to_buf(&ct.reading.timestamp, &mut buf, &pos);
        assert(buf@ =~= record_bytes(*ct));
        buf
    }

    /// Decodes one record; fails when `buf` is not exactly one record long.
    pub fn ct_reading_from_le_bytes(buf: &[u8]) -> (r: Result<CT, CodecError>)
        ensures
            buf@.len() == CT_READING_SIZE ==> r == Ok::<CT, CodecError>(parse_record(buf@)),
            buf@.len() != CT_READING_SIZE ==> r == Err::<CT, CodecError>(
                CodecError::BufferSizeMismatch,
            ),
    {
        if buf.len() != CT_READING_SIZE {
            return Err(CodecError::BufferSizeMismatch);
        }
        let reading = CTReading {
            real_power: u32_from_le_bytes(slice_subrange(buf, 2, 6)),
            apparent_power: u32_from_le_bytes(slice_subrange(buf, 6, 10)),
            i_rms: u32_from_le_bytes(slice_subrange(buf, 10, 14)),
            v_rms: u32_from_le_bytes(slice_subrange(buf, 14, 18)),
            kwh: u32_from_le_bytes(slice_subrange(buf, 18, 22)),
            timestamp: u64_from_le_bytes(slice_subrange(buf, 22, 30)),
        };
        Ok(CT { id: u16_from_le_bytes(slice_subrange(buf, 0, 2)), reading })
    }
}

} // verus!
