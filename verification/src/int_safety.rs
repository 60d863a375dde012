//! Integer-safety checks: overflow, signedness, truncation and
//! divide-by-zero are all rejected explicitly instead of wrapping, silently
//! truncating, or panicking.

use vstd::prelude::*;

verus! {

/// Why a numeric operation was rejected.
#[derive(Clone, Copy, Debug, PartialEq, Eq)]
pub enum LabError {
    Overflow,
    TooLarge,
    NegativeOffset,
    OutOfBounds,
    InvalidPort,
    DivideByZero,
}

/// A hard cap on allocation sizes.
pub const MAX_BYTES: usize = 1_000_000;

/// Compute an allocation of `count * record_size` zeroed bytes.  The product
/// is computed with checked arithmetic and capped at `MAX_BYTES`, so a
/// malformed header can neither wrap the size nor exhaust memory.
pub fn alloc_records_buggy(count: u32, record_size: u32) -> (r: Result<Vec<u8>, LabError>)
    ensures
        match r {
            Ok(buf) => {
                &&& count * record_size <= MAX_BYTES
                &&& buf@.len() == count * record_size
                &&& forall|i: int| 0 <= i < buf@.len() ==> buf@[i] == 0u8
            },
            Err(e) => {
                &&& count * record_size > MAX_BYTES
                &&& (e matches LabError::Overflow <==> count * record_size > u32::MAX)
                &&& (e matches LabError::TooLarge <==> (MAX_BYTES < count * record_size
                    && count * record_size <= u32::MAX))
            },
        },
{
    let total_u32 = match count.checked_mul(record_size) {
        Some(t) => t,
        None => {
            return Err(LabError::Overflow);
        },
    };
    let total = total_u32 as usize;
    if total > MAX_BYTES {
        return Err(LabError::TooLarge);
    }
    let mut buf: Vec<u8> = Vec::new();
    while buf.len() < total
        invariant
            buf@.len() <= total,
            total <= MAX_BYTES,
            forall|i: int| 0 <= i < buf@.len() ==> buf@[i] == 0u8,
        decreases total - buf@.len(),
    {
        buf.push(0u8);
    }
    Ok(buf)
}

/// Read the byte at a signed offset.  Negative offsets are rejected before
/// any conversion, and the index is bounds-checked before use.
pub fn read_at_offset_buggy(buf: &[u8], offset: i32) -> (r: Result<u8, LabError>)
    ensures
        match r {
            Ok(b) => 0 <= offset < buf@.len() && b == buf@[offset as int],
            Err(e) => {
                &&& !(0 <= offset < buf@.len())
                &&& (e matches LabError::NegativeOffset <==> offset < 0)
                &&& (e matches LabError::OutOfBounds <==> offset >= buf@.len())
            },
        },
{
    if offset < 0 {
        return Err(LabError::NegativeOffset);
    }
    let idx = offset as usize;
    if idx < buf.len() {
        Ok(buf[idx])
    } else {
        Err(LabError::OutOfBounds)
    }
}

/// Parse a user-supplied port number.  Values outside `[1, 65535]` are
/// rejected rather than silently truncated.
pub fn parse_port_buggy(port_from_user: u64) -> (r: Result<u16, LabError>)
    ensures
        match r {
            Ok(p) => 1 <= port_from_user <= u16::MAX && p == port_from_user,
            Err(e) => (e matches LabError::InvalidPort) && (port_from_user == 0 || port_from_user
                > u16::MAX),
        },
{
    if port_from_user == 0 || port_from_user > 65535 {
        return Err(LabError::InvalidPort);
    }
    Ok(port_from_user as u16)
}

/// Average bytes per chunk, with division by zero rejected explicitly.
pub fn avg_chunk_size_buggy(total_bytes: u64, chunks: u64) -> (r: Result<u64, LabError>)
    ensures
        match r {
            Ok(avg) => chunks != 0 && avg == total_bytes / chunks,
            Err(e) => (e matches LabError::DivideByZero) && chunks == 0,
        },
{
    if chunks == 0 {
        return Err(LabError::DivideByZero);
    }
    Ok(total_bytes / chunks)
}

} // verus!
