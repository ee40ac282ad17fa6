//! Shift-JIS text conversion for archive filenames.
//!
//! The archive stores filenames in the legacy 8-bit Japanese encoding. What
//! a byte sequence decodes to (and what a string encodes to) is named by two
//! uninterpreted functions; the conversions themselves are performed by
//! `encoding_rs` behind trusted wrappers. The public conversions demand an
//! exact round trip: Shift-JIS maps some distinct inputs to one output (the
//! yen sign encodes to the backslash byte, and duplicate byte ranges decode
//! to one character), so after each conversion the result is converted back
//! and compared with the source, and any drift is an error — never a silent
//! best-effort result.

use vstd::prelude::*;

use crate::error::{ErrModel, FvpError, FvpResult};

verus! {

/// What the Shift-JIS decoder yields for `bytes`: `Some` of the decoded
/// characters when every byte sequence is well-formed Shift-JIS (and no byte
/// order mark diverts decoding to another encoding), `None` otherwise.
pub uninterp spec fn sjis_decode(bytes: Seq<u8>) -> Option<Seq<char>>;

/// What the Shift-JIS encoder yields for `s`: `Some` of the encoded bytes
/// when every character is representable, `None` otherwise.
pub uninterp spec fn sjis_encode(s: Seq<char>) -> Option<Seq<u8>>;

/// The bytes are an unambiguous Shift-JIS encoding: they decode, and
/// re-encoding the decoded characters reproduces exactly these bytes.
pub open spec fn sjis_exact_bytes(bytes: Seq<u8>) -> bool {
    match sjis_decode(bytes) {
        Some(s) => sjis_encode(s) == Some(bytes),
        None => false,
    }
}

/// The characters have an unambiguous Shift-JIS encoding: they encode, and
/// decoding the encoded bytes reproduces exactly these characters.
pub open spec fn sjis_exact_chars(s: Seq<char>) -> bool {
    match sjis_encode(s) {
        Some(b) => sjis_decode(b) == Some(s),
        None => false,
    }
}

/// Relies on `encoding_rs::Encoding::decode` on `SHIFT_JIS`: the result is a
/// function of the bytes alone; the flags it returns tell apart a clean
/// decode from one with replacement characters or one diverted by a byte
/// order mark, and both of the latter are rejected here.
#[verifier::external_body]
fn decode_string_raw(bytes: &[u8]) -> (r: FvpResult<String>)
    ensures
        match r {
            Ok(s) => sjis_decode(bytes@) == Some(s@),
            Err(e) => sjis_decode(bytes@) is None && e@ == ErrModel::CannotDecodeString,
        },
{
    let (cow, encoding_used, had_errors) = encoding_rs::SHIFT_JIS.decode(bytes);
    if had_errors || encoding_used != encoding_rs::SHIFT_JIS {
        Err(FvpError::CannotDecodeString)
    } else {
        Ok(cow.into_owned())
    }
}

/// Relies on `encoding_rs::Encoding::encode` on `SHIFT_JIS`: the result is a
/// function of the string alone; the flag it returns tells whether some
/// character was unmappable and had to be replaced, which is rejected here.
#[verifier::external_body]
fn encode_string_raw(string: &str) -> (r: FvpResult<Vec<u8>>)
    ensures
        match r {
            Ok(b) => sjis_encode(string@) == Some(b@),
            Err(e) => sjis_encode(string@) is None && e@ == ErrModel::CannotEncodeString,
        },
{
    let (cow, encoding_used, had_errors) = encoding_rs::SHIFT_JIS.encode(string);
    if had_errors || encoding_used != encoding_rs::SHIFT_JIS {
        Err(FvpError::CannotEncodeString)
    } else {
        Ok(cow.into_owned())
    }
}

/// The two byte buffers hold the same bytes.
fn bytes_equal(a: &[u8], b: &[u8]) -> (r: bool)
    ensures
        r <==> a@ == b@,
{
    if a.len() != b.len() {
        return false;
    }
    let mut i: usize = 0;
    while i < a.len()
        invariant
            a@.len() == b@.len(),
            i <= a@.len(),
            forall|j: int| 0 <= j < i as int ==> a@[j] == b@[j],
        decreases a@.len() - i,
    {
        if a[i] != b[i] {
            return false;
        }
        i = i + 1;
    }
    assert(a@ =~= b@);
    true
}

/// Decodes Shift-JIS bytes to text, exactly or not at all: the bytes must
/// be well-formed Shift-JIS and re-encoding the decoded text must reproduce
/// them byte for byte, so that any ambiguous decoding is an error rather
/// than a silent drift.
pub fn decode_string(bytes: &[u8]) -> (r: FvpResult<String>)
    ensures
        match r {
            Ok(s) => sjis_decode(bytes@) == Some(s@) && sjis_encode(s@) == Some(bytes@),
            Err(e) => !sjis_exact_bytes(bytes@) && e@ == ErrModel::CannotDecodeString,
        },
{
    let s = match decode_string_raw(bytes) {
        Ok(s) => s,
        Err(_) => {
            return Err(FvpError::CannotDecodeString);
        },
    };
    let back = match encode_string_raw(s.as_str()) {
        Ok(b) => b,
        Err(_) => {
            return Err(FvpError::CannotDecodeString);
        },
    };
    if bytes_equal(bytes, back.as_slice()) {
        Ok(s)
    } else {
        Err(FvpError::CannotDecodeString)
    }
}

/// Encodes text to Shift-JIS bytes, exactly or not at all: every character
/// must be representable and decoding the encoded bytes must reproduce the
/// text character for character, so that a character the encoding can only
/// approximate (the yen sign, say) is an error rather than a silent drift.
pub fn encode_string(string: &str) -> (r: FvpResult<Vec<u8>>)
    ensures
        match r {
            Ok(b) => sjis_encode(string@) == Some(b@) && sjis_decode(b@) == Some(string@),
            Err(e) => !sjis_exact_chars(string@) && e@ == ErrModel::CannotEncodeString,
        },
{
    let b = match encode_string_raw(string) {
        Ok(b) => b,
        Err(_) => {
            return Err(FvpError::CannotEncodeString);
        },
    };
    let back = match decode_string_raw(b.as_slice()) {
        Ok(t) => t,
        Err(_) => {
            return Err(FvpError::CannotEncodeString);
        },
    };
    let owned = String::from_str(string);
    if back == owned {
        Ok(b)
    } else {
        Err(FvpError::CannotEncodeString)
    }
}

} // verus!
