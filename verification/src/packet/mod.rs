pub mod eth;
pub mod ipv4;
pub mod ipv6;
pub mod tcp;
pub mod tls;

use vstd::prelude::*;

verus! {

/// IP version carried by a captured frame.
#[derive(Debug, Clone, Copy, PartialEq, Eq, Structural)]
pub enum IpVersion {
    V4,
    V6,
}

/// Link-layer framing of a captured packet.
#[derive(Debug, Clone, Copy, PartialEq, Eq, Structural)]
pub enum FrameKind {
    Ethernet,
    NullLoopback,
    RawIp,
}

/// Reads a big-endian 16-bit value out of two bytes.
pub open spec fn be16(hi: u8, lo: u8) -> int {
    hi as int * 256 + lo as int
}

/// The IP version announced by the high nibble of a byte (the IP header's first byte).
pub open spec fn version_nibble(b: u8) -> Option<IpVersion> {
    if b / 16 == 4 {
        Some(IpVersion::V4)
    } else if b / 16 == 6 {
        Some(IpVersion::V6)
    } else {
        None
    }
}

impl FrameKind {
    /// Length in bytes of the link-layer header that precedes the IP header.
    pub open spec fn spec_link_header_len(self) -> nat {
        match self {
            FrameKind::Ethernet => 14,
            FrameKind::NullLoopback => 4,
            FrameKind::RawIp => 0,
        }
    }

    pub fn link_header_len(self) -> (r: usize)
        ensures
            r == self.spec_link_header_len(),
    {
        match self {
            FrameKind::Ethernet => eth::ETH_HEADER_LEN,
            FrameKind::NullLoopback => 4,
            FrameKind::RawIp => 0,
        }
    }
}

/// BPF datalink type of `NULL` (BSD loopback) framing.
pub const DLT_NULL: u32 = 0;
/// BPF datalink type of Ethernet framing.
pub const DLT_EN10MB: u32 = 1;
/// BPF datalink type of raw IP (no link-layer header).
pub const DLT_RAW: u32 = 12;
/// BPF datalink type of OpenBSD-style loopback framing.
pub const DLT_LOOP: u32 = 108;

/// The framing of a BPF datalink type: Ethernet, the two loopback framings, or raw IP;
/// `None` for any other type.
pub open spec fn spec_frame_kind_for_dlt(dlt: u32) -> Option<FrameKind> {
    if dlt == DLT_EN10MB {
        Some(FrameKind::Ethernet)
    } else if dlt == DLT_NULL || dlt == DLT_LOOP {
        Some(FrameKind::NullLoopback)
    } else if dlt == DLT_RAW {
        Some(FrameKind::RawIp)
    } else {
        None
    }
}

/// The framing of the frames that a BPF device with datalink type `dlt` delivers, or
/// `None` when the sniffer does not handle that type.
pub fn frame_kind_for_dlt(dlt: u32) -> (r: Option<FrameKind>)
    ensures
        r == spec_frame_kind_for_dlt(dlt),
{
    if dlt == DLT_EN10MB {
        Some(FrameKind::Ethernet)
    } else if dlt == DLT_NULL || dlt == DLT_LOOP {
        Some(FrameKind::NullLoopback)
    } else if dlt == DLT_RAW {
        Some(FrameKind::RawIp)
    } else {
        None
    }
}

/// The IP version of a frame of the given framing, or `None` when the frame is too short
/// or carries neither IPv4 nor IPv6.
pub open spec fn spec_detect_ip_version(data: Seq<u8>, kind: FrameKind) -> Option<IpVersion> {
    match kind {
        FrameKind::Ethernet => eth::spec_ethertype(data),
        FrameKind::NullLoopback => if data.len() < 5 {
            None
        } else {
            version_nibble(data[4])
        },
        FrameKind::RawIp => if data.len() == 0 {
            None
        } else {
            version_nibble(data[0])
        },
    }
}

fn nibble_version(b: u8) -> (r: Option<IpVersion>)
    ensures
        r == version_nibble(b),
{
    let hi = b >> 4;
    assert(hi == b / 16) by (bit_vector)
        requires
            hi == b >> 4,
    ;
    match hi {
        4 => Some(IpVersion::V4),
        6 => Some(IpVersion::V6),
        _ => None,
    }
}

pub fn detect_ip_version(data: &[u8], kind: FrameKind) -> (r: Option<IpVersion>)
    ensures
        r == spec_detect_ip_version(data@, kind),
{
    match kind {
        FrameKind::Ethernet => eth::ethertype(data),
        FrameKind::NullLoopback => {
            if data.len() < 5 {
                return None;
            }
            nibble_version(data[4])
        },
        FrameKind::RawIp => {
            if data.len() == 0 {
                return None;
            }
            nibble_version(data[0])
        },
    }
}

/// Appends `src[from..to]` to `out`.
pub fn push_range(out: &mut Vec<u8>, src: &[u8], from: usize, to: usize)
    requires
        from <= to <= src@.len(),
    ensures
        final(out)@ == old(out)@ + src@.subrange(from as int, to as int),
{
    let mut i = from;
    while i < to
        invariant
            from <= i <= to <= src@.len(),
            out@ == old(out)@ + src@.subrange(from as int, i as int),
        decreases to - i,
    {
        out.push(src[i]);
        assert(src@.subrange(from as int, i + 1) =~= src@.subrange(from as int, i as int).push(
            src@[i as int],
        ));
        i = i + 1;
    }
}

} // verus!
