//! Typed little-endian reads from an absolute offset into a byte buffer.
//!
//! Every read is a pure view over caller-owned memory: a fixed-width
//! unsigned integer, or a zero-terminated run of bytes decoded as Shift-JIS
//! text. A read that would run past the buffer fails with
//! [`FvpError::OffsetTooLarge`]; nothing panics.

use vstd::bytes::{spec_u16_from_le_bytes, spec_u32_from_le_bytes, u16_from_le_bytes,
    u32_from_le_bytes};
use vstd::prelude::*;
use vstd::slice::slice_subrange;

use crate::encoding::{decode_string, sjis_decode, sjis_encode};
use crate::error::{ErrModel, FvpError, FvpResult};

verus! {

/// The little-endian 16-bit integer held at `off`.
pub open spec fn spec_read_u16(s: Seq<u8>, off: int) -> u16 {
    spec_u16_from_le_bytes(s.subrange(off, off + 2))
}

/// The little-endian 32-bit integer held at `off`.
pub open spec fn spec_read_u32(s: Seq<u8>, off: int) -> u32 {
    spec_u32_from_le_bytes(s.subrange(off, off + 4))
}

/// Some zero byte stands at or after `off`.
pub open spec fn has_nul(s: Seq<u8>, off: int) -> bool {
    exists|j: int| off <= j < s.len() && s[j] == 0
}

/// The position of the first zero byte at or after `off`; meaningful only
/// when `has_nul(s, off)` holds.
pub open spec fn nul_pos(s: Seq<u8>, off: int) -> int
    recommends
        0 <= off,
    decreases s.len() - off,
{
    if off < s.len() {
        if s[off] == 0 {
            off
        } else {
            nul_pos(s, off + 1)
        }
    } else {
        off
    }
}

/// A zero at `p` with none before it pins `nul_pos` down to `p`.
pub proof fn lemma_nul_pos_unique(s: Seq<u8>, off: int, p: int)
    requires
        0 <= off <= p < s.len(),
        s[p] == 0,
        forall|j: int| off <= j < p ==> s[j] != 0,
    ensures
        has_nul(s, off),
        nul_pos(s, off) == p,
    decreases p - off,
{
    if off < p {
        lemma_nul_pos_unique(s, off + 1, p);
    }
}

/// The zero-terminated Shift-JIS text held at `off`: the run of bytes up to
/// the first terminator, decoded, or the error that stops either step. The
/// decoding must be exact: a run whose decoded text re-encodes to different
/// bytes is rejected, never silently accepted.
pub open spec fn spec_read_cstr(s: Seq<u8>, off: int) -> Result<Seq<char>, ErrModel> {
    if !(0 <= off <= s.len()) || !has_nul(s, off) {
        Err(ErrModel::OffsetTooLarge)
    } else {
        let run = s.subrange(off, nul_pos(s, off));
        match sjis_decode(run) {
            Some(t) => if sjis_encode(t) == Some(run) {
                Ok(t)
            } else {
                Err(ErrModel::CannotDecodeString)
            },
            None => Err(ErrModel::CannotDecodeString),
        }
    }
}

/// Reads the little-endian `u16` at `offset`, or fails when fewer than two
/// bytes remain there.
pub fn read_u16(src: &[u8], offset: usize) -> (r: FvpResult<u16>)
    ensures
        match r {
            Ok(v) => offset + 2 <= src@.len() && v == spec_read_u16(src@, offset as int),
            Err(e) => offset + 2 > src@.len() && e@ == ErrModel::OffsetTooLarge,
        },
{
    if src.len() < 2 || offset > src.len() - 2 {
        Err(FvpError::OffsetTooLarge)
    } else {
        Ok(u16_from_le_bytes(slice_subrange(src, offset, offset + 2)))
    }
}

/// Reads the little-endian `u32` at `offset`, or fails when fewer than four
/// bytes remain there.
pub fn read_u32(src: &[u8], offset: usize) -> (r: FvpResult<u32>)
    ensures
        match r {
            Ok(v) => offset + 4 <= src@.len() && v == spec_read_u32(src@, offset as int),
            Err(e) => offset + 4 > src@.len() && e@ == ErrModel::OffsetTooLarge,
        },
{
    if src.len() < 4 || offset > src.len() - 4 {
        Err(FvpError::OffsetTooLarge)
    } else {
        Ok(u32_from_le_bytes(slice_subrange(src, offset, offset + 4)))
    }
}

/// Reads the zero-terminated Shift-JIS text starting at `offset`.
pub fn read_string(src: &[u8], offset: usize) -> (r: FvpResult<String>)
    ensures
        match r {
            Ok(s) => spec_read_cstr(src@, offset as int) == Ok::<Seq<char>, ErrModel>(s@),
            Err(e) => spec_read_cstr(src@, offset as int) == Err::<Seq<char>, ErrModel>(e@),
        },
{
    if offset > src.len() {
        return Err(FvpError::OffsetTooLarge);
    }
    let mut end: usize = offset;
    while end < src.len() && src[end] != 0
        invariant
            offset <= end <= src@.len(),
            forall|j: int| offset <= j < end ==> src@[j] != 0,
        decreases src@.len() - end,
    {
        end = end + 1;
    }
    if end == src.len() {
        assert(!has_nul(src@, offset as int));
        return Err(FvpError::OffsetTooLarge);
    }
    proof {
        lemma_nul_pos_unique(src@, offset as int, end as int);
    }
    decode_string(slice_subrange(src, offset, end))
}

} // verus!
