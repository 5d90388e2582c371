//! Decoding captured Ethernet frames far enough to classify them.
//!
//! A frame is a raw byte sequence. The first fourteen bytes are the
//! Ethernet header, whose last two bytes carry the ethertype, big-endian.
//! An IPv4 payload of at least twenty bytes carries its source address at
//! payload offset twelve and its destination at sixteen; an IPv6 payload
//! of at least forty bytes carries them at offsets eight and twenty-four.
//! The size attributed to a decoded packet is the captured frame's whole
//! byte length.

use vstd::prelude::*;

use crate::net::IpAddress;

verus! {

/// The ethertype carried by IPv4 frames.
pub const ETHERTYPE_IPV4: u16 = 0x0800;

/// The ethertype carried by IPv6 frames.
pub const ETHERTYPE_IPV6: u16 = 0x86DD;

/// The outcome of decoding one captured frame.
#[derive(Clone, Copy, PartialEq, Eq, Structural, Debug)]
pub enum DecodedFrame {
    /// The frame is too short for its ethertype, or for an Ethernet
    /// header at all.
    Malformed,
    /// An ethertype other than IPv4 and IPv6; such traffic is ignored.
    Unsupported,
    /// A decoded network-layer header with the frame's byte length.
    Ip { src: IpAddress, dst: IpAddress, size: u64 },
}

/// The big-endian 16-bit value at offset `i`.
pub open spec fn spec_be16(b: Seq<u8>, i: int) -> int {
    b[i] * 0x100 + b[i + 1]
}

/// The big-endian 32-bit value at offset `i`.
pub open spec fn spec_be32(b: Seq<u8>, i: int) -> int {
    b[i] * 0x1000000 + b[i + 1] * 0x10000 + b[i + 2] * 0x100 + b[i + 3]
}

/// The big-endian 128-bit value at offset `i`.
pub open spec fn spec_be128(b: Seq<u8>, i: int) -> int {
    b[i] * 0x1000000000000000000000000000000
        + b[i + 1] * 0x10000000000000000000000000000
        + b[i + 2] * 0x100000000000000000000000000
        + b[i + 3] * 0x1000000000000000000000000
        + b[i + 4] * 0x10000000000000000000000
        + b[i + 5] * 0x100000000000000000000
        + b[i + 6] * 0x1000000000000000000
        + b[i + 7] * 0x10000000000000000
        + b[i + 8] * 0x100000000000000
        + b[i + 9] * 0x1000000000000
        + b[i + 10] * 0x10000000000
        + b[i + 11] * 0x100000000
        + b[i + 12] * 0x1000000
        + b[i + 13] * 0x10000
        + b[i + 14] * 0x100
        + b[i + 15]
}

/// The decoding of one frame, as the capture loop sees it.
pub open spec fn spec_decode(b: Seq<u8>) -> DecodedFrame {
    if b.len() < 14 {
        DecodedFrame::Malformed
    } else if spec_be16(b, 12) == ETHERTYPE_IPV4 {
        if b.len() < 34 {
            DecodedFrame::Malformed
        } else {
            DecodedFrame::Ip {
                src: IpAddress::V4(spec_be32(b, 26) as u32),
                dst: IpAddress::V4(spec_be32(b, 30) as u32),
                size: b.len() as u64,
            }
        }
    } else if spec_be16(b, 12) == ETHERTYPE_IPV6 {
        if b.len() < 54 {
            DecodedFrame::Malformed
        } else {
            DecodedFrame::Ip {
                src: IpAddress::V6(spec_be128(b, 22) as u128),
                dst: IpAddress::V6(spec_be128(b, 38) as u128),
                size: b.len() as u64,
            }
        }
    } else {
        DecodedFrame::Unsupported
    }
}

/// Reads the big-endian 32-bit value at offset `i`.
fn read_be32(b: &Vec<u8>, i: usize) -> (r: u32)
    requires
        i + 4 <= b@.len(),
        b@.len() <= usize::MAX,
    ensures
        r == spec_be32(b@, i as int),
{
    (b[i] as u32) * 0x1000000 + (b[i + 1] as u32) * 0x10000 + (b[i + 2] as u32) * 0x100 + (b[i
        + 3] as u32)
}

/// Reads the big-endian 128-bit value at offset `i`.
fn read_be128(b: &Vec<u8>, i: usize) -> (r: u128)
    requires
        i + 16 <= b@.len(),
        b@.len() <= usize::MAX,
    ensures
        r == spec_be128(b@, i as int),
{
    let hi = (read_be32(b, i) as u128) * 0x1000000000000000000000000
        + (read_be32(b, i + 4) as u128) * 0x10000000000000000;
    let lo = (read_be32(b, i + 8) as u128) * 0x100000000 + (read_be32(b, i + 12) as u128);
    hi + lo
}

/// Decodes one captured frame.
pub fn decode_frame(b: &Vec<u8>) -> (r: DecodedFrame)
    ensures
        r == spec_decode(b@),
{
    if b.len() < 14 {
        return DecodedFrame::Malformed;
    }
    let ethertype: u32 = (b[12] as u32) * 0x100 + (b[13] as u32);
    if ethertype == ETHERTYPE_IPV4 as u32 {
        if b.len() < 34 {
            DecodedFrame::Malformed
        } else {
            DecodedFrame::Ip {
                src: IpAddress::V4(read_be32(b, 26)),
                dst: IpAddress::V4(read_be32(b, 30)),
                size: b.len() as u64,
            }
        }
    } else if ethertype == ETHERTYPE_IPV6 as u32 {
        if b.len() < 54 {
            DecodedFrame::Malformed
        } else {
            DecodedFrame::Ip {
                src: IpAddress::V6(read_be128(b, 22)),
                dst: IpAddress::V6(read_be128(b, 38)),
                size: b.len() as u64,
            }
        }
    } else {
        DecodedFrame::Unsupported
    }
}

} // verus!
