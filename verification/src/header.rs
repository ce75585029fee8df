use vstd::prelude::*;
use crate::cursor;
use crate::cursor::be_u16_at;
use crate::cursor::has_bytes;
use crate::cursor::le_u32_at;
use crate::error::DecodeError;

verus! {

/// How many bytes the header of a cache takes.
pub const HEADER_LEN: usize = 8;

/// The only format version that is read.
pub const FORMAT_VERSION: u32 = 1;

/// Whether a version tag, the first byte of a cache, is a known one.
pub open spec fn known_version(tag: u8) -> bool {
    tag == 0x24 || tag == 0x26 || tag == 0x27 || tag == 0x28
}

/// Whether a revision, the fourth byte of a cache, is a known one.
pub open spec fn known_revision(revision: u8) -> bool {
    revision == 0x06 || revision == 0x07
}

/// The version tag of a cache whose header is in order, or what is wrong
/// with the header. The fields are judged in the order in which they
/// stand: the version tag, the signature (big-endian), the revision, the
/// format version (little-endian).
pub open spec fn header_of(s: Seq<u8>, magic: u16) -> Result<u8, DecodeError> {
    if !has_bytes(s, 0, 1) {
        Err(DecodeError::Truncated)
    } else if !known_version(s[0]) {
        Err(DecodeError::UnsupportedVersion)
    } else if !has_bytes(s, 1, 2) {
        Err(DecodeError::Truncated)
    } else if be_u16_at(s, 1) != magic {
        Err(DecodeError::BadMagic)
    } else if !has_bytes(s, 3, 1) {
        Err(DecodeError::Truncated)
    } else if !known_revision(s[3]) {
        Err(DecodeError::UnsupportedVersion)
    } else if !has_bytes(s, 4, 4) {
        Err(DecodeError::Truncated)
    } else if le_u32_at(s, 4) != FORMAT_VERSION {
        Err(DecodeError::BadFormatVersion)
    } else {
        Ok(s[0])
    }
}

/// Checks the header at the start of a cache and returns its version tag.
pub fn read_header(buf: &[u8], magic: u16) -> (r: Result<u8, DecodeError>)
    ensures
        r == header_of(buf@, magic),
{
    let mut pos: usize = 0;
    let version = match cursor::u8(buf, &mut pos) {
        Ok(version) => version,
        Err(e) => {
            return Err(e);
        },
    };
    if version != 0x24 && version != 0x26 && version != 0x27 && version != 0x28 {
        return Err(DecodeError::UnsupportedVersion);
    }
    let signature = match cursor::be_u16(buf, &mut pos) {
        Ok(signature) => signature,
        Err(e) => {
            return Err(e);
        },
    };
    if signature != magic {
        return Err(DecodeError::BadMagic);
    }
    let revision = match cursor::u8(buf, &mut pos) {
        Ok(revision) => revision,
        Err(e) => {
            return Err(e);
        },
    };
    if revision != 0x06 && revision != 0x07 {
        return Err(DecodeError::UnsupportedVersion);
    }
    let format = match cursor::le_u32(buf, &mut pos) {
        Ok(format) => format,
        Err(e) => {
            return Err(e);
        },
    };
    if format != FORMAT_VERSION {
        return Err(DecodeError::BadFormatVersion);
    }
    Ok(version)
}

} // verus!
