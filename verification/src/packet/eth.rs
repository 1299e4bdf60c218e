use super::{be16, IpVersion};
use vstd::prelude::*;

verus! {

pub const ETH_HEADER_LEN: usize = 14;

pub const ETHERTYPE_IPV4: u16 = 0x0800;

pub const ETHERTYPE_IPV6: u16 = 0x86DD;

/// The IP version named by an Ethernet frame's EtherType field, when the frame holds a
/// whole Ethernet header.
pub open spec fn spec_ethertype(frame: Seq<u8>) -> Option<IpVersion> {
    if frame.len() < 14 {
        None
    } else if be16(frame[12], frame[13]) == 0x0800 {
        Some(IpVersion::V4)
    } else if be16(frame[12], frame[13]) == 0x86DD {
        Some(IpVersion::V6)
    } else {
        None
    }
}

pub fn ethertype(frame: &[u8]) -> (r: Option<IpVersion>)
    ensures
        r == spec_ethertype(frame@),
{
    if frame.len() < ETH_HEADER_LEN {
        return None;
    }
    let et: u16 = frame[12] as u16 * 256 + frame[13] as u16;
    if et == ETHERTYPE_IPV4 {
        Some(IpVersion::V4)
    } else if et == ETHERTYPE_IPV6 {
        Some(IpVersion::V6)
    } else {
        None
    }
}

/// What a captured Ethernet frame carries: IPv4 exactly when its EtherType bytes (12 and
/// 13) are `08 00`, IPv6 exactly when they are `86 DD`, and nothing known when the frame is
/// shorter than an Ethernet header or names another protocol.
pub proof fn lemma_ethertype_classifies(frame: Seq<u8>)
    ensures
        frame.len() >= 14 && frame[12] == 0x08 && frame[13] == 0x00 ==> spec_ethertype(frame)
            == Some(IpVersion::V4),
        frame.len() >= 14 && frame[12] == 0x86 && frame[13] == 0xdd ==> spec_ethertype(frame)
            == Some(IpVersion::V6),
        spec_ethertype(frame) == Some(IpVersion::V4) ==> frame.len() >= 14 && frame[12] == 0x08
            && frame[13] == 0x00,
        spec_ethertype(frame) == Some(IpVersion::V6) ==> frame.len() >= 14 && frame[12] == 0x86
            && frame[13] == 0xdd,
{
    if frame.len() >= 14 {
        let (a, b) = (frame[12], frame[13]);
        assert(be16(a, b) == 0x0800 <==> a == 0x08 && b == 0x00);
        assert(be16(a, b) == 0x86DD <==> a == 0x86 && b == 0xdd);
    }
}

} // verus!
