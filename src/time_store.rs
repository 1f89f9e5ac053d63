use vstd::bytes::*;
use vstd::prelude::*;

verus! {

/// Largest size in bytes that the time store grows to.
pub const MAX_TIME_STORAGE_SIZE: u64 = 256;

/// Size in bytes of one time record, a little-endian u64.
pub const TIME_RECORD_SIZE: usize = 8;

/// Whether a time store that holds `len` bytes is restarted by the next
/// record, because the record would take it past its maximum size.
pub open spec fn time_store_truncates(len: int) -> bool {
    len + TIME_RECORD_SIZE > MAX_TIME_STORAGE_SIZE
}

/// The time store after recording `time`, when it held `c`.
pub open spec fn time_file_after(c: Seq<u8>, time: u64) -> Seq<u8> {
    if time_store_truncates(c.len() as int) {
        spec_u64_to_le_bytes(time)
    } else {
        c + spec_u64_to_le_bytes(time)
    }
}

/// The most recent record of a time store: its last eight bytes.
pub open spec fn last_time_record(c: Seq<u8>) -> Option<u64> {
    if c.len() >= TIME_RECORD_SIZE {
        Some(spec_u64_from_le_bytes(c.subrange(c.len() - TIME_RECORD_SIZE, c.len() as int)))
    } else {
        None
    }
}

/// Recording a time makes it the store's latest record, the store never
/// grows past its maximum size, and short of a restart every earlier
/// record is kept.
pub proof fn lemma_time_store_latest(c: Seq<u8>, time: u64)
    ensures
        last_time_record(time_file_after(c, time)) == Some(time),
        c.len() <= MAX_TIME_STORAGE_SIZE ==> time_file_after(c, time).len()
            <= MAX_TIME_STORAGE_SIZE,
        !time_store_truncates(c.len() as int) ==> time_file_after(c, time).subrange(
            0,
            c.len() as int,
        ) == c,
{
    lemma_auto_spec_u64_to_from_le_bytes();
    let f = time_file_after(c, time);
    assert(f.subrange(f.len() - TIME_RECORD_SIZE, f.len() as int) =~= spec_u64_to_le_bytes(time));
    if !time_store_truncates(c.len() as int) {
        assert(f.subrange(0, c.len() as int) =~= c);
    }
}

/// How one time record is written: the bytes, and whether the store is
/// truncated first instead of appended to.
pub struct TimeRecordWrite {
    pub truncate: bool,
    pub bytes: Vec<u8>,
}

} // verus!
