use vstd::prelude::*;
use vstd::slice::slice_subrange;
use vstd::slice::slice_to_vec;
use vstd::utf8::decode_utf8;
use vstd::utf8::valid_utf8;
use crate::error::DecodeError;

verus! {

/// The byte at `pos`.
pub open spec fn byte_at(s: Seq<u8>, pos: int) -> int {
    s[pos] as int
}

/// The unsigned 16-bit value whose big-endian bytes start at `pos`.
pub open spec fn be_u16_at(s: Seq<u8>, pos: int) -> int {
    s[pos] * 0x100 + s[pos + 1]
}

/// The unsigned 32-bit value whose little-endian bytes start at `pos`.
pub open spec fn le_u32_at(s: Seq<u8>, pos: int) -> int {
    s[pos] + s[pos + 1] * 0x100 + s[pos + 2] * 0x1_0000 + s[pos + 3] * 0x100_0000
}

/// The unsigned 64-bit value whose little-endian bytes start at `pos`.
pub open spec fn le_u64_at(s: Seq<u8>, pos: int) -> int {
    le_u32_at(s, pos) + le_u32_at(s, pos + 4) * 0x1_0000_0000
}

/// Whether `n` more bytes can be read at `pos`.
pub open spec fn has_bytes(s: Seq<u8>, pos: int, n: int) -> bool {
    0 <= pos && pos + n <= s.len()
}

/// Reads one byte and moves the cursor past it.
pub fn u8(buf: &[u8], pos: &mut usize) -> (r: Result<u8, DecodeError>)
    ensures
        r == (if has_bytes(buf@, *old(pos) as int, 1) {
            Ok::<u8, DecodeError>(byte_at(buf@, *old(pos) as int) as u8)
        } else {
            Err::<u8, DecodeError>(DecodeError::Truncated)
        }),
        *final(pos) == (if has_bytes(buf@, *old(pos) as int, 1) {
            *old(pos) + 1
        } else {
            *old(pos) as int
        }),
{
    if *pos >= buf.len() {
        return Err(DecodeError::Truncated);
    }
    let value = buf[*pos];
    *pos = *pos + 1;
    Ok(value)
}

/// Reads a big-endian 16-bit value and moves the cursor past it.
pub fn be_u16(buf: &[u8], pos: &mut usize) -> (r: Result<u16, DecodeError>)
    ensures
        r == (if has_bytes(buf@, *old(pos) as int, 2) {
            Ok::<u16, DecodeError>(be_u16_at(buf@, *old(pos) as int) as u16)
        } else {
            Err::<u16, DecodeError>(DecodeError::Truncated)
        }),
        *final(pos) == (if has_bytes(buf@, *old(pos) as int, 2) {
            *old(pos) + 2
        } else {
            *old(pos) as int
        }),
{
    let at = *pos;
    if at > buf.len() || buf.len() - at < 2 {
        return Err(DecodeError::Truncated);
    }
    let value = (buf[at] as u16) * 0x100 + (buf[at + 1] as u16);
    *pos = at + 2;
    Ok(value)
}

/// Reads a little-endian 32-bit value and moves the cursor past it.
pub fn le_u32(buf: &[u8], pos: &mut usize) -> (r: Result<u32, DecodeError>)
    ensures
        r == (if has_bytes(buf@, *old(pos) as int, 4) {
            Ok::<u32, DecodeError>(le_u32_at(buf@, *old(pos) as int) as u32)
        } else {
            Err::<u32, DecodeError>(DecodeError::Truncated)
        }),
        *final(pos) == (if has_bytes(buf@, *old(pos) as int, 4) {
            *old(pos) + 4
        } else {
            *old(pos) as int
        }),
{
    let at = *pos;
    if at > buf.len() || buf.len() - at < 4 {
        return Err(DecodeError::Truncated);
    }
    let value = (buf[at] as u32) + (buf[at + 1] as u32) * 0x100 + (buf[at + 2] as u32) * 0x1_0000
        + (buf[at + 3] as u32) * 0x100_0000;
    *pos = at + 4;
    Ok(value)
}

/// Reads a little-endian 64-bit value and moves the cursor past it.
pub fn le_u64(buf: &[u8], pos: &mut usize) -> (r: Result<u64, DecodeError>)
    ensures
        r == (if has_bytes(buf@, *old(pos) as int, 8) {
            Ok::<u64, DecodeError>(le_u64_at(buf@, *old(pos) as int) as u64)
        } else {
            Err::<u64, DecodeError>(DecodeError::Truncated)
        }),
        *final(pos) == (if has_bytes(buf@, *old(pos) as int, 8) {
            *old(pos) + 8
        } else {
            *old(pos) as int
        }),
{
    let at = *pos;
    if at > buf.len() || buf.len() - at < 8 {
        return Err(DecodeError::Truncated);
    }
    let low = (buf[at] as u64) + (buf[at + 1] as u64) * 0x100 + (buf[at + 2] as u64) * 0x1_0000
        + (buf[at + 3] as u64) * 0x100_0000;
    let high = (buf[at + 4] as u64) + (buf[at + 5] as u64) * 0x100 + (buf[at + 6] as u64)
        * 0x1_0000 + (buf[at + 7] as u64) * 0x100_0000;
    *pos = at + 8;
    Ok(low + high * 0x1_0000_0000)
}

/// The place of the first zero byte at or after `pos`, or the length of
/// `s` where there is none.
pub open spec fn terminator_at(s: Seq<u8>, pos: int) -> int
    decreases s.len() - pos,
{
    if pos < 0 || pos >= s.len() {
        s.len() as int
    } else if s[pos] == 0 {
        pos
    } else {
        terminator_at(s, pos + 1)
    }
}

/// A zero-terminated text ends past the place where it starts.
pub proof fn terminator_bounds(s: Seq<u8>, pos: int)
    requires
        0 <= pos,
    ensures
        pos <= terminator_at(s, pos) || s.len() <= terminator_at(s, pos),
        terminator_at(s, pos) <= s.len(),
        terminator_at(s, pos) < s.len() ==> s[terminator_at(s, pos)] == 0,
        forall|i: int| pos <= i < terminator_at(s, pos) ==> s[i] != 0,
    decreases s.len() - pos,
{
    if pos < s.len() && s[pos] != 0 {
        terminator_bounds(s, pos + 1);
    }
}

/// The zero-terminated text that starts at `pos`, with the place just
/// past its terminator.
pub open spec fn text_at(s: Seq<u8>, pos: int) -> Result<(Seq<char>, int), DecodeError> {
    let end = terminator_at(s, pos);
    if pos < 0 || end >= s.len() {
        Err(DecodeError::Truncated)
    } else if !valid_utf8(s.subrange(pos, end)) {
        Err(DecodeError::InvalidUtf8)
    } else {
        Ok((decode_utf8(s.subrange(pos, end)), end + 1))
    }
}

#[verifier::external_type_specification]
#[verifier::external_body]
pub struct ExFromUtf8Error(std::string::FromUtf8Error);

/// `String::from_utf8` of std: the text that the bytes encode where they
/// are well-formed UTF-8, and an error where they are not.
#[verifier::external_body]
fn from_utf8(bytes: Vec<u8>) -> (r: Result<String, std::string::FromUtf8Error>)
    ensures
        r is Ok <==> valid_utf8(bytes@),
        r matches Ok(text) ==> text@ == decode_utf8(bytes@),
{
    String::from_utf8(bytes)
}

/// Reads a zero-terminated UTF-8 text and moves the cursor past its
/// terminator. On an error the cursor stays where it was.
pub fn string(buf: &[u8], pos: &mut usize) -> (r: Result<String, DecodeError>)
    ensures
        match r {
            Ok(text) => text_at(buf@, *old(pos) as int) == Ok::<(Seq<char>, int), DecodeError>(
                (text@, *final(pos) as int),
            ),
            Err(e) => text_at(buf@, *old(pos) as int) == Err::<(Seq<char>, int), DecodeError>(e)
                && *final(pos) == *old(pos),
        },
{
    let begin = *pos;
    let mut end = begin;
    while end < buf.len() && buf[end] != 0
        invariant
            begin <= end,
            terminator_at(buf@, begin as int) == terminator_at(buf@, end as int),
        decreases buf.len() - end,
    {
        end = end + 1;
    }
    if end >= buf.len() {
        return Err(DecodeError::Truncated);
    }
    match from_utf8(slice_to_vec(slice_subrange(buf, begin, end))) {
        Ok(text) => {
            *pos = end + 1;
            Ok(text)
        },
        Err(_) => Err(DecodeError::InvalidUtf8),
    }
}

} // verus!
