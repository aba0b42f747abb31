//! Firmware image header: a fixed 24-byte little-endian record at the start
//! of a firmware image, carrying the parameters of an upload.

use vstd::prelude::*;
use vstd::slice::slice_subrange;
use crate::wire::spec_le_u16;
use crate::wire::spec_le_u32;
use crate::wire::le_u16;
use crate::wire::le_u32;

verus! {

/// Magic constant that opens a valid firmware image header
/// (little-endian value of its first four bytes).
pub const HEADER_MAGIC: u32 = 0xca77_f00d;

/// Byte length of the firmware image header.
pub const HEADER_LEN: usize = 24;

/// Firmware version, four 16-bit fields.  On the wire the minor field
/// precedes the major field; this is the device's layout, not a mistake.
#[derive(Debug, PartialEq, Eq, Structural, Clone, Copy)]
pub struct Version {
    pub minor: u16,
    pub major: u16,
    pub release: u16,
    pub patch: u16,
}

/// Decoded firmware image header.
#[derive(Debug, PartialEq, Eq, Structural, Clone, Copy)]
pub struct Header {
    pub version: Version,
    /// Base address the image is loaded at.
    pub base_address: u32,
    /// Declared size of the firmware image, in bytes.
    pub size: u32,
    /// Code entry point (absolute address).
    pub entry_point: u32,
}

/// True when `s` starts with a well-formed header: at least 24 bytes,
/// opening with the header magic.
pub open spec fn header_magic_matches(s: Seq<u8>) -> bool {
    s.len() >= HEADER_LEN && spec_le_u32(s.subrange(0, 4)) == HEADER_MAGIC
}

/// The header encoded in the first 24 bytes of `s`, field by field.
pub open spec fn spec_parse_header(s: Seq<u8>) -> Header
    recommends
        s.len() >= HEADER_LEN,
{
    Header {
        version: Version {
            minor: spec_le_u16(s.subrange(4, 6)),
            major: spec_le_u16(s.subrange(6, 8)),
            release: spec_le_u16(s.subrange(8, 10)),
            patch: spec_le_u16(s.subrange(10, 12)),
        },
        base_address: spec_le_u32(s.subrange(12, 16)),
        size: spec_le_u32(s.subrange(16, 20)),
        entry_point: spec_le_u32(s.subrange(20, 24)),
    }
}

/// What header parsing yields on `s`: the decoded header when the buffer is
/// long enough and opens with the header magic, nothing otherwise.
pub open spec fn spec_header_from_slice(s: Seq<u8>) -> Option<Header> {
    if header_magic_matches(s) {
        Some(spec_parse_header(s))
    } else {
        None
    }
}

impl Header {
    /// Decodes a firmware header from the first 24 bytes of `buffer`.
    /// Bytes past the header are ignored; no check of the declared size
    /// against the buffer length is made here (that is the upload driver's
    /// responsibility).
    pub fn from_slice(buffer: &[u8]) -> (r: Option<Header>)
        ensures
            r == spec_header_from_slice(buffer@),
    {
        if buffer.len() < HEADER_LEN {
            return None;
        }
        let magic = le_u32(slice_subrange(buffer, 0, 4));
        if magic != HEADER_MAGIC {
            return None;
        }
        Some(
            Header {
                version: Version {
                    minor: le_u16(slice_subrange(buffer, 4, 6)),
                    major: le_u16(slice_subrange(buffer, 6, 8)),
                    release: le_u16(slice_subrange(buffer, 8, 10)),
                    patch: le_u16(slice_subrange(buffer, 10, 12)),
                },
                base_address: le_u32(slice_subrange(buffer, 12, 16)),
                size: le_u32(slice_subrange(buffer, 16, 20)),
                entry_point: le_u32(slice_subrange(buffer, 20, 24)),
            },
        )
    }
}

} // verus!
