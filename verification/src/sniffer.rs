use crate::error::SnifferError;
use crate::net::IpAddr;
use crate::proto::{ConnId, SnifferResult};
use crate::packet::tcp::{
    spec_ones_complement, with_be16, with_be32, word_sum, zero_checksum_field, zero_field_at,
};
use crate::packet::{
    be16, detect_ip_version, ipv4, ipv6, push_range, spec_detect_ip_version, tcp, FrameKind,
    IpVersion,
};
use vstd::prelude::*;
use vstd::string::StringExecFns;

verus! {

/// A raw link-layer socket that the sniffer reads frames from and injects frames into.
pub trait RawBackend: Send + 'static {
    fn recv_frame(&mut self, buf: &mut [u8]) -> Result<usize, SnifferError>;

    fn send_frame(&mut self, frame: &[u8]) -> Result<(), SnifferError>;

    fn frame_kind(&self) -> FrameKind;

    /// Whether the backend fills in checksums itself, so that the sniffer leaves them alone;
    /// by default it does not.
    fn skip_checksum_on_send(&self) -> (r: bool)
        default_ensures
            r == false,
    {
        false
    }
}

/// Offset of the TCP header in a frame whose IP header starts at `link`.
pub open spec fn tcp_offset_in(t: Seq<u8>, ver: IpVersion, link: int) -> int {
    match ver {
        IpVersion::V4 => link + ipv4::spec_header_len(t.subrange(link, t.len() as int)),
        IpVersion::V6 => link + 40,
    }
}

/// End of the TCP header (its data offset counted from `tcp_offset_in`).
pub open spec fn tcp_header_end_in(t: Seq<u8>, ver: IpVersion, link: int) -> int {
    let off = tcp_offset_in(t, ver, link);
    off + (t[off + 12] / 16) * 4
}

/// The inputs on which `build_fake_frame` can build its frame: the headers it copies are
/// inside the template, the copy is long enough for every field it rewrites, and, when it
/// recomputes checksums, the IPv4 header is a full header and the TCP segment's length fits
/// the 16-bit length fields of the pseudo header.
pub open spec fn spec_fake_frame_ok(
    t: Seq<u8>,
    payload_len: nat,
    ver: IpVersion,
    link: int,
    skip: bool,
) -> bool {
    &&& 0 <= link
    &&& (ver is V4 ==> link + 1 <= t.len())
    &&& tcp_offset_in(t, ver, link) + 13 <= t.len()
    &&& tcp_header_end_in(t, ver, link) <= t.len()
    &&& tcp_header_end_in(t, ver, link) + payload_len >= tcp_offset_in(t, ver, link) + 14
    &&& (!skip && ver is V4 ==> ipv4::spec_header_len(t.subrange(link, t.len() as int)) >= 20)
    &&& (!skip ==> {
        &&& tcp_header_end_in(t, ver, link) + payload_len >= tcp_offset_in(t, ver, link) + 18
        &&& tcp_header_end_in(t, ver, link) + payload_len - tcp_offset_in(t, ver, link) <= 0xffff
    })
}

/// The sequence number of a fake segment of `len` bytes that ends just before the first
/// byte of the real stream, whose initial sequence number is `isn`.
pub open spec fn fake_seq(isn: u32, len: nat) -> u32 {
    ((isn + 1 - len) % 0x1_0000_0000) as u32
}

/// The IP length fields of the copied headers fitted to the fake frame `f`, the IPv4
/// identification incremented and, unless `skip`, the IPv4 header checksum recomputed.
pub open spec fn spec_fit_ip_header(f: Seq<u8>, ver: IpVersion, link: int, off: int, skip: bool) -> Seq<
    u8,
> {
    match ver {
        IpVersion::V4 => {
            let a = with_be16(f, link + 2, (f.len() - link) % 0x10000);
            let b = with_be16(a, link + 4, (be16(a[link + 4], a[link + 5]) + 1) % 0x10000);
            if skip {
                b
            } else {
                with_be16(b, link + 10, ipv4::spec_ipv4_checksum(b.subrange(link, b.len() as int)))
            }
        },
        IpVersion::V6 => with_be16(f, link + 4, (f.len() - off) % 0x10000),
    }
}

/// PSH set and the sequence number moved back so that a payload of `len` bytes ends just
/// before the real stream.
pub open spec fn spec_mark_fake_segment(f: Seq<u8>, off: int, isn: u32, len: nat) -> Seq<u8> {
    with_be32(f.update(off + 13, f[off + 13] | tcp::PSH), off + 4, fake_seq(isn, len))
}

/// The TCP checksum of the segment at `off` recomputed over the pseudo header built from
/// the IP header at `link`.
pub open spec fn spec_fill_tcp_checksum(f: Seq<u8>, ver: IpVersion, link: int, off: int) -> Seq<u8> {
    let ip = f.subrange(link, off);
    let seg_len = (f.len() - off) as u16;
    let pseudo = match ver {
        IpVersion::V4 => ipv4::spec_pseudo_header(ip, seg_len),
        IpVersion::V6 => ipv6::spec_pseudo_header(ip, seg_len),
    };
    let seg = f.subrange(off, f.len() as int);
    with_be16(
        zero_field_at(f, off + 16),
        off + 16,
        spec_ones_complement(word_sum(pseudo + zero_checksum_field(seg)) as int),
    )
}

/// The fake frame: the template's link, IP and TCP headers followed by the fake payload,
/// with the IP length fields fitted to the new size, the IPv4 identification incremented,
/// PSH set, the sequence number moved back by the payload's length, and (unless the
/// backend fills them in) the IPv4 header and TCP checksums recomputed.
pub open spec fn spec_fake_frame(
    t: Seq<u8>,
    isn: u32,
    payload: Seq<u8>,
    ver: IpVersion,
    link: int,
    skip: bool,
) -> Seq<u8> {
    let off = tcp_offset_in(t, ver, link);
    let end = tcp_header_end_in(t, ver, link);
    let f0 = t.subrange(0, end) + payload;
    let f1 = spec_fit_ip_header(f0, ver, link, off, skip);
    let f3 = spec_mark_fake_segment(f1, off, isn, payload.len());
    if skip {
        f3
    } else {
        spec_fill_tcp_checksum(f3, ver, link, off)
    }
}

fn fit_ip_header(out: &mut Vec<u8>, ver: IpVersion, link: usize, off: usize, skip: bool)
    requires
        link + 6 <= off + 14 <= old(out)@.len(),
        link <= off,
        !skip && ver is V4 ==> {
            &&& link + 12 <= old(out)@.len()
            &&& link + ipv4::spec_header_len(old(out)@.subrange(link as int, old(out)@.len() as int))
                <= old(out)@.len()
        },
    ensures
        final(out)@ == spec_fit_ip_header(old(out)@, ver, link as int, off as int, skip),
{
    let olen = out.len();
    match ver {
        IpVersion::V4 => {
            let new_total = ((olen - link) % 0x10000) as u16;
            ipv4::put_be16(out.as_mut_slice(), link + 2, new_total);
            let id = (out[link + 4] as u16 * 256 + out[link + 5] as u16).wrapping_add(1);
            ipv4::put_be16(out.as_mut_slice(), link + 4, id);
            if !skip {
                proof {
                    let o = out@;
                    assert(o.subrange(link as int, o.len() as int)[0] == old(out)@[link as int]);
                    assert(old(out)@.subrange(link as int, old(out)@.len() as int)[0] == old(
                        out,
                    )@[link as int]);
                }
                ipv4::recompute_checksum_at(out.as_mut_slice(), link);
            }
        },
        IpVersion::V6 => {
            let new_payload = ((olen - off) % 0x10000) as u16;
            ipv4::put_be16(out.as_mut_slice(), link + 4, new_payload);
        },
    }
}

fn mark_fake_segment(out: &mut Vec<u8>, off: usize, isn: u32, len: usize)
    requires
        off + 14 <= old(out).len(),
    ensures
        final(out)@ == spec_mark_fake_segment(old(out)@, off as int, isn, len as nat),
{
    let f = out[off + 13] | tcp::PSH;
    out.set(off + 13, f);
    let len32 = (len as u64 % 0x1_0000_0000) as u32;
    let seq = isn.wrapping_add(1).wrapping_sub(len32);
    proof {
        let m: int = 0x1_0000_0000;
        let a: int = (isn + 1) % m;
        let d: int = a - len32;
        vstd::arithmetic::div_mod::lemma_sub_mod_noop(isn + 1, len as int, m);
        if d >= 0 {
            vstd::arithmetic::div_mod::lemma_small_mod(d as nat, m as nat);
        } else {
            vstd::arithmetic::div_mod::lemma_mod_add_multiples_vanish(d, m);
            vstd::arithmetic::div_mod::lemma_small_mod((d + m) as nat, m as nat);
        }
        assert(seq == fake_seq(isn, len as nat));
    }
    tcp::put_be32(out.as_mut_slice(), off + 4, seq);
}

fn fill_tcp_checksum(out: &mut Vec<u8>, ver: IpVersion, link: usize, off: usize)
    requires
        link <= off,
        off + 18 <= old(out)@.len(),
        old(out)@.len() - off <= 0xffff,
        ver is V4 ==> off - link >= 20,
        ver is V6 ==> off - link == 40,
    ensures
        final(out)@ == spec_fill_tcp_checksum(old(out)@, ver, link as int, off as int),
{
    let seg_len = (out.len() - off) as u16;
    let ph: Vec<u8> = match ver {
        IpVersion::V4 => {
            let a = ipv4::pseudo_header(
                vstd::slice::slice_subrange(out.as_slice(), link, off),
                seg_len,
            );
            let mut v: Vec<u8> = Vec::new();
            push_range(&mut v, a.as_slice(), 0, 12);
            assert(a@.subrange(0, 12) =~= a@);
            v
        },
        IpVersion::V6 => {
            let a = ipv6::pseudo_header(
                vstd::slice::slice_subrange(out.as_slice(), link, off),
                seg_len,
            );
            let mut v: Vec<u8> = Vec::new();
            push_range(&mut v, a.as_slice(), 0, 40);
            assert(a@.subrange(0, 40) =~= a@);
            v
        },
    };
    proof {
        crate::packet::tcp::lemma_word_sum_bound(ph@);
        crate::packet::tcp::lemma_word_sum_bound(
            zero_checksum_field(out@.subrange(off as int, out@.len() as int)),
        );
    }
    tcp::fill_checksum_at(out.as_mut_slice(), off, ph.as_slice());
}

/// Whether `build_fake_frame` can build its frame from these inputs.
pub fn fake_frame_ok(
    template: &[u8],
    payload_len: usize,
    ip_ver: IpVersion,
    link_len: usize,
    skip_checksum: bool,
) -> (r: bool)
    ensures
        r == spec_fake_frame_ok(template@, payload_len as nat, ip_ver, link_len as int, skip_checksum),
{
    let tlen = template.len();
    let tcp_off = match ip_ver {
        IpVersion::V4 => {
            if link_len >= tlen {
                return false;
            }
            let ihl = ipv4::header_len(vstd::slice::slice_subrange(template, link_len, tlen));
            if ihl > tlen - link_len {
                return false;
            }
            link_len + ihl
        },
        IpVersion::V6 => {
            if link_len > tlen || tlen - link_len < ipv6::IPV6_HEADER_LEN {
                return false;
            }
            link_len + ipv6::IPV6_HEADER_LEN
        },
    };
    if tlen - tcp_off < 13 {
        return false;
    }
    let dof = tcp::data_offset(vstd::slice::slice_subrange(template, tcp_off, tlen));
    if dof > tlen - tcp_off {
        return false;
    }
    let end = tcp_off + dof;
    if payload_len < 14 && dof + payload_len < 14 {
        return false;
    }
    if !skip_checksum {
        if ip_ver == IpVersion::V4 && tcp_off - link_len < 20 {
            return false;
        }
        if payload_len > 0xffff || dof + payload_len < 18 || dof + payload_len > 0xffff {
            return false;
        }
    }
    true
}

/// Builds the fake frame that is injected after the client's third handshake ACK
/// (`template`), carrying `fake_payload` with a sequence number outside the server's
/// receive window.
pub fn build_fake_frame(
    template: &[u8],
    isn: u32,
    fake_payload: &[u8],
    ip_ver: IpVersion,
    link_len: usize,
    skip_checksum: bool,
) -> (out: Vec<u8>)
    requires
        spec_fake_frame_ok(template@, fake_payload@.len(), ip_ver, link_len as int, skip_checksum),
    ensures
        out@ == spec_fake_frame(
            template@,
            isn,
            fake_payload@,
            ip_ver,
            link_len as int,
            skip_checksum,
        ),
{
    let tlen = template.len();
    let tcp_off = match ip_ver {
        IpVersion::V4 => link_len + ipv4::header_len(
            vstd::slice::slice_subrange(template, link_len, tlen),
        ),
        IpVersion::V6 => link_len + ipv6::IPV6_HEADER_LEN,
    };
    let tcp_hdr_len = tcp::data_offset(vstd::slice::slice_subrange(template, tcp_off, tlen));
    let hdr_end = tcp_off + tcp_hdr_len;
    let mut out: Vec<u8> = Vec::new();
    push_range(&mut out, template, 0, hdr_end);
    push_range(&mut out, fake_payload, 0, fake_payload.len());
    assert(fake_payload@.subrange(0, fake_payload@.len() as int) =~= fake_payload@);
    proof {
        let o = out@;
        let l = link_len as int;
        if !skip_checksum && ip_ver is V4 {
            assert(o[l] == template@[l]);
            assert(o.subrange(l, o.len() as int)[0] == template@.subrange(
                l,
                template@.len() as int,
            )[0]);
        }
    }
    fit_ip_header(&mut out, ip_ver, link_len, tcp_off, skip_checksum);
    mark_fake_segment(&mut out, tcp_off, isn, fake_payload.len());
    if !skip_checksum {
        fill_tcp_checksum(&mut out, ip_ver, link_len, tcp_off);
    }
    out
}

proof fn lemma_be32_roundtrip(v: u32)
    ensures
        (v / 0x1000000) as u8 as int * 0x1000000 + (v / 0x10000 % 256) as u8 as int * 0x10000 + (v
            / 0x100 % 256) as u8 as int * 0x100 + (v % 256) as u8 as int == v,
{
    assert((v / 0x1000000) as u8 as int * 0x1000000 + (v / 0x10000 % 256) as u8 as int * 0x10000
        + (v / 0x100 % 256) as u8 as int * 0x100 + (v % 256) as u8 as int == v) by (bit_vector);
}

/// The fake segment ends exactly where the real stream starts: its sequence number plus its
/// length is `isn + 1`, so the server finds it wholly before its receive window and drops
/// it, while the real data that follows is accepted.
pub proof fn lemma_fake_frame_ends_at_stream_start(
    t: Seq<u8>,
    isn: u32,
    payload: Seq<u8>,
    ver: IpVersion,
    link: int,
    skip: bool,
)
    requires
        spec_fake_frame_ok(t, payload.len(), ver, link, skip),
    ensures
        ({
            let f = spec_fake_frame(t, isn, payload, ver, link, skip);
            let off = tcp_offset_in(t, ver, link);
            &&& ipv4::be32_at(f, off + 4) == fake_seq(isn, payload.len())
            &&& (fake_seq(isn, payload.len()) + payload.len()) % 0x1_0000_0000 == next_seq(isn)
        }),
{
    let off = tcp_offset_in(t, ver, link);
    let end = tcp_header_end_in(t, ver, link);
    let f0 = t.subrange(0, end) + payload;
    let f1 = spec_fit_ip_header(f0, ver, link, off, skip);
    let f3 = spec_mark_fake_segment(f1, off, isn, payload.len());
    let v = fake_seq(isn, payload.len());
    lemma_be32_roundtrip(v);
    assert(ipv4::be32_at(f3, off + 4) == v);
    let f = spec_fake_frame(t, isn, payload, ver, link, skip);
    assert(f[off + 4] == f3[off + 4] && f[off + 5] == f3[off + 5] && f[off + 6] == f3[off + 6]
        && f[off + 7] == f3[off + 7]);
    let m: int = 0x1_0000_0000;
    vstd::arithmetic::div_mod::lemma_add_mod_noop(isn + 1 - payload.len(), payload.len() as int, m);
    vstd::arithmetic::div_mod::lemma_mod_twice(isn + 1 - payload.len(), m);
    vstd::arithmetic::div_mod::lemma_small_mod(payload.len() % m as nat, m as nat);
    vstd::arithmetic::div_mod::lemma_add_mod_noop(v as int, payload.len() as int, m);
    vstd::arithmetic::div_mod::lemma_mod_twice(payload.len() as int, m);
}

/// When the sniffer recomputes checksums, the fake's TCP segment checks out against the
/// pseudo header of its own IP header: the one's-complement sum over both is zero.
pub proof fn lemma_fake_frame_checksum_verifies(
    t: Seq<u8>,
    isn: u32,
    payload: Seq<u8>,
    ver: IpVersion,
    link: int,
)
    requires
        spec_fake_frame_ok(t, payload.len(), ver, link, false),
    ensures
        ({
            let f = spec_fake_frame(t, isn, payload, ver, link, false);
            let off = tcp_offset_in(t, ver, link);
            let ip = f.subrange(link, off);
            let seg = f.subrange(off, f.len() as int);
            let pseudo = match ver {
                IpVersion::V4 => ipv4::spec_pseudo_header(ip, seg.len() as u16),
                IpVersion::V6 => ipv6::spec_pseudo_header(ip, seg.len() as u16),
            };
            spec_ones_complement(word_sum(pseudo + seg) as int) == 0
        }),
{
    let off = tcp_offset_in(t, ver, link);
    let end = tcp_header_end_in(t, ver, link);
    let f0 = t.subrange(0, end) + payload;
    let f1 = spec_fit_ip_header(f0, ver, link, off, false);
    let f3 = spec_mark_fake_segment(f1, off, isn, payload.len());
    let ip3 = f3.subrange(link, off);
    let seg3 = f3.subrange(off, f3.len() as int);
    let f = spec_fake_frame(t, isn, payload, ver, link, false);
    assert(f.subrange(link, off) =~= ip3);
    match ver {
        IpVersion::V4 => {
            let c = crate::packet::tcp::spec_tcp_checksum_v4(ip3, seg3);
            assert(f.subrange(off, f.len() as int) =~= with_be16(zero_checksum_field(seg3), 16, c));
            crate::packet::tcp::lemma_checksum_v4_verifies(ip3, seg3);
        },
        IpVersion::V6 => {
            let c = crate::packet::tcp::spec_tcp_checksum_v6(ip3, seg3);
            assert(f.subrange(off, f.len() as int) =~= with_be16(zero_checksum_field(seg3), 16, c));
            crate::packet::tcp::lemma_checksum_v6_verifies(ip3, seg3);
        },
    }
}

/// A captured TCP packet of a watched connection, with the connection's four-tuple
/// written from the local side.
#[derive(Debug, Clone, Copy, PartialEq, Eq, Structural)]
pub struct ParsedPacket {
    pub outbound_id: ConnId,
    pub is_outbound: bool,
    pub ip_version: IpVersion,
}

/// Whether `s` holds `x`.
pub open spec fn seq_has<T>(s: Seq<T>, x: T) -> bool {
    exists|i: int| 0 <= i < s.len() && s[i] == x
}

/// Source address, destination address and protocol of the IP header at `link`.
pub open spec fn ip_fields(frame: Seq<u8>, ver: IpVersion, link: int) -> (IpAddr, IpAddr, u8) {
    let ip = frame.subrange(link, frame.len() as int);
    match ver {
        IpVersion::V4 => (
            IpAddr::V4(ipv4::be32_at(ip, 12) as u32),
            IpAddr::V4(ipv4::be32_at(ip, 16) as u32),
            ip[9],
        ),
        IpVersion::V6 => (
            IpAddr::V6(ipv6::be_value(ip.subrange(8, 24)) as u128),
            IpAddr::V6(ipv6::be_value(ip.subrange(24, 40)) as u128),
            ip[6],
        ),
    }
}

/// The packet a frame carries when it is a TCP packet between a local address and one of
/// the upstreams, in either direction; `None` for every other frame.
pub open spec fn spec_parse_frame(
    frame: Seq<u8>,
    local_ips: Seq<IpAddr>,
    upstreams: Seq<(IpAddr, u16)>,
    kind: FrameKind,
) -> Option<ParsedPacket> {
    match spec_detect_ip_version(frame, kind) {
        None => None,
        Some(ver) => {
            let link = kind.spec_link_header_len() as int;
            let ip_len = frame.len() - link;
            if (ver is V4 && ip_len < 20) || (ver is V6 && ip_len < 40) {
                None
            } else {
                let (src, dst, proto) = ip_fields(frame, ver, link);
                let off = tcp_offset_in(frame, ver, link);
                if proto != 6 || frame.len() < off + 20 {
                    None
                } else {
                    let sport = be16(frame[off], frame[off + 1]) as u16;
                    let dport = be16(frame[off + 2], frame[off + 3]) as u16;
                    if seq_has(local_ips, src) && seq_has(upstreams, (dst, dport)) {
                        Some(
                            ParsedPacket {
                                outbound_id: ConnId {
                                    src_ip: src,
                                    src_port: sport,
                                    dst_ip: dst,
                                    dst_port: dport,
                                },
                                is_outbound: true,
                                ip_version: ver,
                            },
                        )
                    } else if seq_has(upstreams, (src, sport)) && seq_has(local_ips, dst) {
                        Some(
                            ParsedPacket {
                                outbound_id: ConnId {
                                    src_ip: dst,
                                    src_port: dport,
                                    dst_ip: src,
                                    dst_port: sport,
                                },
                                is_outbound: false,
                                ip_version: ver,
                            },
                        )
                    } else {
                        None
                    }
                }
            }
        },
    }
}

fn has_ip(ips: &Vec<IpAddr>, ip: IpAddr) -> (r: bool)
    ensures
        r == seq_has(ips@, ip),
{
    let mut i: usize = 0;
    while i < ips.len()
        invariant
            i <= ips@.len(),
            forall|j: int| 0 <= j < i ==> ips@[j] != ip,
        decreases ips@.len() - i,
    {
        if ips[i] == ip {
            return true;
        }
        i = i + 1;
    }
    false
}

fn has_endpoint(eps: &Vec<(IpAddr, u16)>, ip: IpAddr, port: u16) -> (r: bool)
    ensures
        r == seq_has(eps@, (ip, port)),
{
    let mut i: usize = 0;
    while i < eps.len()
        invariant
            i <= eps@.len(),
            forall|j: int| 0 <= j < i ==> eps@[j] != (ip, port),
        decreases eps@.len() - i,
    {
        let (eip, eport) = eps[i];
        if eip == ip && eport == port {
            return true;
        }
        i = i + 1;
    }
    false
}

pub fn parse_frame(
    frame: &[u8],
    local_ips: &Vec<IpAddr>,
    upstream_addrs: &Vec<(IpAddr, u16)>,
    frame_kind: FrameKind,
) -> (r: Option<ParsedPacket>)
    ensures
        r == spec_parse_frame(frame@, local_ips@, upstream_addrs@, frame_kind),
{
    let ip_ver = detect_ip_version(frame, frame_kind)?;
    let link_len = frame_kind.link_header_len();
    let flen = frame.len();
    let ip_hdr = vstd::slice::slice_subrange(frame, link_len, flen);
    let (src_ip, dst_ip, proto, tcp_off) = match ip_ver {
        IpVersion::V4 => {
            if ip_hdr.len() < ipv4::IPV4_MIN_HEADER_LEN {
                return None;
            }
            let ihl = ipv4::header_len(ip_hdr);
            (
                IpAddr::V4(ipv4::src_addr(ip_hdr)),
                IpAddr::V4(ipv4::dst_addr(ip_hdr)),
                ipv4::protocol(ip_hdr),
                link_len + ihl,
            )
        },
        IpVersion::V6 => {
            if ip_hdr.len() < ipv6::IPV6_HEADER_LEN {
                return None;
            }
            (
                IpAddr::V6(ipv6::src_addr(ip_hdr)),
                IpAddr::V6(ipv6::dst_addr(ip_hdr)),
                ipv6::next_header(ip_hdr),
                link_len + ipv6::IPV6_HEADER_LEN,
            )
        },
    };
    if proto != 6 {
        return None;
    }
    if flen < tcp_off + tcp::TCP_MIN_HEADER_LEN {
        return None;
    }
    let tcp_hdr = vstd::slice::slice_subrange(frame, tcp_off, flen);
    let sport = tcp::src_port(tcp_hdr);
    let dport = tcp::dst_port(tcp_hdr);
    let src_is_local = has_ip(local_ips, src_ip);
    let src_is_upstream = has_endpoint(upstream_addrs, src_ip, sport);
    let dst_is_upstream = has_endpoint(upstream_addrs, dst_ip, dport);
    if src_is_local && dst_is_upstream {
        Some(
            ParsedPacket {
                outbound_id: ConnId {
                    src_ip: src_ip,
                    src_port: sport,
                    dst_ip: dst_ip,
                    dst_port: dport,
                },
                is_outbound: true,
                ip_version: ip_ver,
            },
        )
    } else if src_is_upstream && has_ip(local_ips, dst_ip) {
        Some(
            ParsedPacket {
                outbound_id: ConnId {
                    src_ip: dst_ip,
                    src_port: dport,
                    dst_ip: src_ip,
                    dst_port: sport,
                },
                is_outbound: false,
                ip_version: ip_ver,
            },
        )
    } else {
        None
    }
}

/// What the sniffer keeps for one registered connection.
pub struct ConnState {
    pub isn: Option<u32>,
    pub server_isn: Option<u32>,
    pub fake_payload: Vec<u8>,
    pub fake_injected: bool,
}

/// The contents of a `ConnState`.
pub struct ConnView {
    pub isn: Option<u32>,
    pub server_isn: Option<u32>,
    pub fake_payload: Seq<u8>,
    pub fake_injected: bool,
}

impl View for ConnState {
    type V = ConnView;

    open spec fn view(&self) -> ConnView {
        ConnView {
            isn: self.isn,
            server_isn: self.server_isn,
            fake_payload: self.fake_payload@,
            fake_injected: self.fake_injected,
        }
    }
}

/// The map from connection to state that a list of entries stands for (a later entry for
/// the same connection wins).
pub open spec fn table_map(s: Seq<(ConnId, ConnState)>) -> Map<ConnId, ConnView>
    decreases s.len(),
{
    if s.len() == 0 {
        Map::empty()
    } else {
        table_map(s.drop_last()).insert(s.last().0, s.last().1@)
    }
}

/// No connection has two entries.
pub open spec fn distinct_ids(s: Seq<(ConnId, ConnState)>) -> bool {
    forall|i: int, j: int| 0 <= i < j < s.len() ==> s[i].0 != s[j].0
}

proof fn lemma_table_absent(s: Seq<(ConnId, ConnState)>, id: ConnId)
    requires
        forall|i: int| 0 <= i < s.len() ==> s[i].0 != id,
    ensures
        !table_map(s).contains_key(id),
    decreases s.len(),
{
    if s.len() > 0 {
        lemma_table_absent(s.drop_last(), id);
    }
}

proof fn lemma_table_lookup(s: Seq<(ConnId, ConnState)>, i: int)
    requires
        distinct_ids(s),
        0 <= i < s.len(),
    ensures
        table_map(s).contains_key(s[i].0),
        table_map(s)[s[i].0] == s[i].1@,
    decreases s.len(),
{
    if i < s.len() - 1 {
        lemma_table_lookup(s.drop_last(), i);
    }
}

proof fn lemma_table_remove(s: Seq<(ConnId, ConnState)>, i: int)
    requires
        distinct_ids(s),
        0 <= i < s.len(),
    ensures
        table_map(s.remove(i)) == table_map(s).remove(s[i].0),
        distinct_ids(s.remove(i)),
    decreases s.len(),
{
    let id = s[i].0;
    if i == s.len() - 1 {
        assert(s.remove(i) =~= s.drop_last());
        lemma_table_absent(s.drop_last(), id);
        assert(table_map(s).remove(id) =~= table_map(s.drop_last()));
    } else {
        let d = s.drop_last();
        lemma_table_remove(d, i);
        assert(s.remove(i) =~= d.remove(i).push(s.last()));
        assert(s.remove(i).drop_last() =~= d.remove(i));
        assert(table_map(s.remove(i)) =~= table_map(s).remove(id));
    }
}

proof fn lemma_table_push(s: Seq<(ConnId, ConnState)>, e: (ConnId, ConnState))
    requires
        distinct_ids(s),
        forall|i: int| 0 <= i < s.len() ==> s[i].0 != e.0,
    ensures
        table_map(s.push(e)) == table_map(s).insert(e.0, e.1@),
        distinct_ids(s.push(e)),
{
    assert(s.push(e).drop_last() =~= s);
}

/// What a frame made the sniffer do, as the loop around it sees it.
pub enum SnifferEvent {
    Nothing,
    Inject(ConnId, Seq<u8>),
    Confirmed(ConnId),
    Reset(ConnId),
}

/// What the loop around the sniffer has to do after a frame.
#[derive(Debug)]
pub enum SnifferAction {
    /// Nothing to send or report.
    Nothing,
    /// Send `frame` through the backend; if that fails, report the failure to the
    /// connection's handler and deregister the connection.
    Inject { conn_id: ConnId, frame: Vec<u8> },
    /// Report `result` to the connection's handler (the connection has been dropped).
    Report { conn_id: ConnId, result: SnifferResult },
}

impl SnifferAction {
    pub open spec fn event(&self) -> SnifferEvent {
        match self {
            SnifferAction::Nothing => SnifferEvent::Nothing,
            SnifferAction::Inject { conn_id, frame } => SnifferEvent::Inject(*conn_id, frame@),
            SnifferAction::Report { conn_id, result } => match result {
                SnifferResult::FakeConfirmed => SnifferEvent::Confirmed(*conn_id),
                SnifferResult::Failed(_) => SnifferEvent::Reset(*conn_id),
            },
        }
    }
}

/// Flags, sequence number, acknowledgement number and payload length of the TCP segment
/// at `off`.
pub open spec fn tcp_fields(frame: Seq<u8>, off: int) -> (u8, u32, u32, int) {
    let hl = (frame[off + 12] / 16) * 4;
    let total = frame.len() - off;
    (
        frame[off + 13],
        ipv4::be32_at(frame, off + 4) as u32,
        ipv4::be32_at(frame, off + 8) as u32,
        if total >= hl {
            total - hl
        } else {
            0
        },
    )
}

/// `isn + 1` in 32-bit sequence space.
pub open spec fn next_seq(isn: u32) -> u32 {
    ((isn + 1) % 0x1_0000_0000) as u32
}

/// The watched connection and packet a frame belongs to, with the offset of its TCP header.
pub open spec fn spec_classify(
    conns: Map<ConnId, ConnView>,
    local_ips: Seq<IpAddr>,
    upstreams: Seq<(IpAddr, u16)>,
    kind: FrameKind,
    frame: Seq<u8>,
) -> Option<(ParsedPacket, int)> {
    match spec_parse_frame(frame, local_ips, upstreams, kind) {
        None => None,
        Some(p) => if conns.contains_key(p.outbound_id) {
            Some((p, tcp_offset_in(frame, p.ip_version, kind.spec_link_header_len() as int)))
        } else {
            None
        },
    }
}

/// The frame is the client's handshake-completing ACK of a connection that is waiting for
/// its fake, and that ACK comes right after the SYN whose sequence number was recorded.
pub open spec fn spec_is_injection_point(
    conns: Map<ConnId, ConnView>,
    local_ips: Seq<IpAddr>,
    upstreams: Seq<(IpAddr, u16)>,
    kind: FrameKind,
    frame: Seq<u8>,
) -> bool {
    match spec_classify(conns, local_ips, upstreams, kind, frame) {
        None => false,
        Some((p, off)) => {
            let c = conns[p.outbound_id];
            let (fl, seq, ack, plen) = tcp_fields(frame, off);
            &&& p.is_outbound
            &&& !(fl & tcp::SYN != 0 && fl & tcp::ACK == 0 && plen == 0)
            &&& fl & tcp::ACK != 0
            &&& fl & (tcp::SYN | tcp::FIN | tcp::RST) == 0
            &&& plen == 0
            &&& !c.fake_injected
            &&& c.isn matches Some(isn)
            &&& seq == next_seq(isn)
        },
    }
}

/// The frames on which the sniffer cannot build the fake: it has to inject, but the captured
/// ACK does not hold the headers that `build_fake_frame` needs.
pub open spec fn spec_step_crashes(
    conns: Map<ConnId, ConnView>,
    local_ips: Seq<IpAddr>,
    upstreams: Seq<(IpAddr, u16)>,
    kind: FrameKind,
    skip: bool,
    frame: Seq<u8>,
) -> bool {
    spec_is_injection_point(conns, local_ips, upstreams, kind, frame) && {
        let (p, off) = spec_classify(conns, local_ips, upstreams, kind, frame)->0;
        !spec_fake_frame_ok(
            frame,
            conns[p.outbound_id].fake_payload.len(),
            p.ip_version,
            kind.spec_link_header_len() as int,
            skip,
        )
    }
}

/// How one captured frame changes the connection table, and what it makes the sniffer do:
/// an outbound SYN records the initial sequence number; the outbound ACK that completes
/// the handshake makes the sniffer inject the fake (once per connection); an inbound pure
/// ACK of exactly `isn + 1` after the injection confirms that the server ignored the fake
/// and drops the connection; an inbound SYN-ACK acknowledging `isn + 1` records the
/// server's sequence number; an inbound RST reports the failure and drops the connection.
/// Frames of other traffic change nothing.
pub open spec fn spec_step(
    conns: Map<ConnId, ConnView>,
    local_ips: Seq<IpAddr>,
    upstreams: Seq<(IpAddr, u16)>,
    kind: FrameKind,
    skip: bool,
    frame: Seq<u8>,
) -> (Map<ConnId, ConnView>, SnifferEvent) {
    match spec_classify(conns, local_ips, upstreams, kind, frame) {
        None => (conns, SnifferEvent::Nothing),
        Some((p, off)) => {
            let id = p.outbound_id;
            let c = conns[id];
            let (fl, seq, ack, plen) = tcp_fields(frame, off);
            if p.is_outbound {
                if fl & tcp::SYN != 0 && fl & tcp::ACK == 0 && plen == 0 {
                    (conns.insert(id, ConnView { isn: Some(seq), ..c }), SnifferEvent::Nothing)
                } else if spec_is_injection_point(conns, local_ips, upstreams, kind, frame) {
                    let isn = c.isn->0;
                    (
                        conns.insert(id, ConnView { fake_injected: true, ..c }),
                        SnifferEvent::Inject(
                            id,
                            spec_fake_frame(
                                frame,
                                isn,
                                c.fake_payload,
                                p.ip_version,
                                kind.spec_link_header_len() as int,
                                skip,
                            ),
                        ),
                    )
                } else {
                    (conns, SnifferEvent::Nothing)
                }
            } else {
                if fl & tcp::ACK != 0 && fl & (tcp::SYN | tcp::FIN | tcp::RST) == 0 && plen == 0
                    && c.fake_injected && c.isn is Some && ack == next_seq(c.isn->0) {
                    (conns.remove(id), SnifferEvent::Confirmed(id))
                } else if fl & tcp::SYN != 0 && fl & tcp::ACK != 0 && plen == 0 {
                    if c.isn is Some && ack == next_seq(c.isn->0) {
                        (
                            conns.insert(id, ConnView { server_isn: Some(seq), ..c }),
                            SnifferEvent::Nothing,
                        )
                    } else {
                        (conns, SnifferEvent::Nothing)
                    }
                } else if fl & tcp::RST != 0 {
                    (conns.remove(id), SnifferEvent::Reset(id))
                } else {
                    (conns, SnifferEvent::Nothing)
                }
            }
        },
    }
}

/// When the sniffer recomputes checksums, the fake's TCP segment checks out against the
/// pseudo header of RFC 793 (IPv4: source, destination, a zero byte, protocol 6, the
/// segment's length) or of RFC 8200 (IPv6: source, destination, the length in 32 bits, three
/// zero bytes, next header 6), read from the fake's own IP header.
pub proof fn lemma_fake_frame_checksum_rfc(
    t: Seq<u8>,
    isn: u32,
    payload: Seq<u8>,
    ver: IpVersion,
    link: int,
)
    requires
        spec_fake_frame_ok(t, payload.len(), ver, link, false),
    ensures
        ({
            let f = spec_fake_frame(t, isn, payload, ver, link, false);
            let off = tcp_offset_in(t, ver, link);
            let ip = f.subrange(link, off);
            let seg = f.subrange(off, f.len() as int);
            let ph = match ver {
                IpVersion::V4 => ip.subrange(12, 20) + seq![
                    0u8, 6u8, (seg.len() / 256) as u8, (seg.len() % 256) as u8,
                ],
                IpVersion::V6 => ip.subrange(8, 40) + seq![
                    0u8, 0u8, (seg.len() / 256) as u8, (seg.len() % 256) as u8, 0u8, 0u8, 0u8,
                    6u8,
                ],
            };
            seg.len() <= 0xffff && spec_ones_complement(word_sum(ph + seg) as int) == 0
        }),
{
    lemma_fake_frame_checksum_verifies(t, isn, payload, ver, link);
    let f = spec_fake_frame(t, isn, payload, ver, link, false);
    let off = tcp_offset_in(t, ver, link);
    let ip = f.subrange(link, off);
    let seg = f.subrange(off, f.len() as int);
    assert(seg.len() <= 0xffff);
    match ver {
        IpVersion::V4 => {
            assert(ipv4::spec_pseudo_header(ip, seg.len() as u16) =~= ip.subrange(12, 20) + seq![
                0u8, 6u8, (seg.len() / 256) as u8, (seg.len() % 256) as u8,
            ]);
        },
        IpVersion::V6 => {
            assert(ipv6::spec_pseudo_header(ip, seg.len() as u16) =~= ip.subrange(8, 40) + seq![
                0u8, 0u8, (seg.len() / 256) as u8, (seg.len() % 256) as u8, 0u8, 0u8, 0u8, 6u8,
            ]);
        },
    }
}

/// The client's pure ACK whose sequence number follows the recorded SYN of a connection
/// that has no fake yet makes the sniffer inject that connection's fake, built from this
/// ACK with the recorded ISN, the registered payload, the frame's IP version, the link
/// header length and the backend's checksum setting; the connection is marked injected.
pub proof fn lemma_ack_after_syn_injects(
    conns: Map<ConnId, ConnView>,
    local_ips: Seq<IpAddr>,
    upstreams: Seq<(IpAddr, u16)>,
    kind: FrameKind,
    skip: bool,
    frame: Seq<u8>,
    p: ParsedPacket,
    off: int,
    isn: u32,
)
    requires
        spec_classify(conns, local_ips, upstreams, kind, frame) == Some((p, off)),
        p.is_outbound,
        tcp_fields(frame, off).0 & tcp::ACK != 0,
        tcp_fields(frame, off).0 & (tcp::SYN | tcp::FIN | tcp::RST) == 0,
        tcp_fields(frame, off).3 == 0,
        tcp_fields(frame, off).1 == next_seq(isn),
        conns[p.outbound_id].isn == Some(isn),
        !conns[p.outbound_id].fake_injected,
    ensures
        spec_step(conns, local_ips, upstreams, kind, skip, frame) == (
            conns.insert(p.outbound_id, ConnView { fake_injected: true, ..conns[p.outbound_id] }),
            SnifferEvent::Inject(
                p.outbound_id,
                spec_fake_frame(
                    frame,
                    isn,
                    conns[p.outbound_id].fake_payload,
                    p.ip_version,
                    kind.spec_link_header_len() as int,
                    skip,
                ),
            ),
        ),
{
    assert(spec_is_injection_point(conns, local_ips, upstreams, kind, frame));
}

/// After its fake was injected, the server's pure ACK of `isn + 1` confirms the connection
/// and ends its entry; a reset from the server (other than in a SYN-ACK) ends the entry
/// with a reset report.
pub proof fn lemma_server_answers(
    conns: Map<ConnId, ConnView>,
    local_ips: Seq<IpAddr>,
    upstreams: Seq<(IpAddr, u16)>,
    kind: FrameKind,
    skip: bool,
    frame: Seq<u8>,
    p: ParsedPacket,
    off: int,
)
    requires
        spec_classify(conns, local_ips, upstreams, kind, frame) == Some((p, off)),
        !p.is_outbound,
    ensures
        ({
            let c = conns[p.outbound_id];
            let (fl, seq, ack, plen) = tcp_fields(frame, off);
            fl & tcp::ACK != 0 && fl & (tcp::SYN | tcp::FIN | tcp::RST) == 0 && plen == 0
                && c.fake_injected && c.isn is Some && ack == next_seq(c.isn->0) ==> spec_step(
                conns,
                local_ips,
                upstreams,
                kind,
                skip,
                frame,
            ) == (conns.remove(p.outbound_id), SnifferEvent::Confirmed(p.outbound_id))
        }),
        ({
            let (fl, seq, ack, plen) = tcp_fields(frame, off);
            fl & tcp::RST != 0 && !(fl & tcp::SYN != 0 && fl & tcp::ACK != 0 && plen == 0)
                ==> spec_step(conns, local_ips, upstreams, kind, skip, frame) == (
                conns.remove(p.outbound_id),
                SnifferEvent::Reset(p.outbound_id),
            )
        }),
{
    let (fl, seq, ack, plen) = tcp_fields(frame, off);
    if fl & tcp::RST != 0 {
        assert(fl & tcp::RST != 0 ==> fl & (tcp::SYN | tcp::FIN | tcp::RST) != 0) by (bit_vector);
    }
}

/// The fake of a connection is injected at most once: a frame makes the sniffer inject only
/// for a registered connection whose fake has not been injected yet, and marks it injected.
pub proof fn lemma_inject_at_most_once(
    conns: Map<ConnId, ConnView>,
    local_ips: Seq<IpAddr>,
    upstreams: Seq<(IpAddr, u16)>,
    kind: FrameKind,
    skip: bool,
    frame: Seq<u8>,
    id: ConnId,
)
    ensures
        ({
            let (next, ev) = spec_step(conns, local_ips, upstreams, kind, skip, frame);
            (ev matches SnifferEvent::Inject(i, _) && i == id) ==> {
                &&& conns.contains_key(id)
                &&& !conns[id].fake_injected
                &&& next.contains_key(id)
                &&& next[id].fake_injected
            }
        }),
        conns.contains_key(id) && conns[id].fake_injected ==> !(spec_step(
            conns,
            local_ips,
            upstreams,
            kind,
            skip,
            frame,
        ).1 matches SnifferEvent::Inject(i, _) && i == id),
{
}

/// The server's ACK confirms a fake only after that fake was injected, and a confirmation or
/// a reset ends the connection's entry.
pub proof fn lemma_reports_end_connection(
    conns: Map<ConnId, ConnView>,
    local_ips: Seq<IpAddr>,
    upstreams: Seq<(IpAddr, u16)>,
    kind: FrameKind,
    skip: bool,
    frame: Seq<u8>,
)
    ensures
        ({
            let (next, ev) = spec_step(conns, local_ips, upstreams, kind, skip, frame);
            &&& ev matches SnifferEvent::Confirmed(id) ==> conns.contains_key(id)
                && conns[id].fake_injected && !next.contains_key(id)
            &&& ev matches SnifferEvent::Reset(id) ==> conns.contains_key(id) && !next.contains_key(
                id,
            )
        }),
{
}

/// A frame changes the entry of its own connection at most: every other registered
/// connection keeps its state, and no connection is ever added.
pub proof fn lemma_step_is_local(
    conns: Map<ConnId, ConnView>,
    local_ips: Seq<IpAddr>,
    upstreams: Seq<(IpAddr, u16)>,
    kind: FrameKind,
    skip: bool,
    frame: Seq<u8>,
    other: ConnId,
)
    ensures
        ({
            let next = spec_step(conns, local_ips, upstreams, kind, skip, frame).0;
            &&& next.dom().subset_of(conns.dom())
            &&& match spec_classify(conns, local_ips, upstreams, kind, frame) {
                None => next == conns,
                Some((p, _)) => other != p.outbound_id ==> (next.contains_key(other)
                    == conns.contains_key(other) && (conns.contains_key(other) ==> next[other]
                    == conns[other])),
            }
        }),
{
}

/// Once a connection's entry is dropped (as after a failed injection), no frame brings it
/// back, and no frame makes the sniffer inject or report for that connection again.
pub proof fn lemma_dropped_connection_stays_dropped(
    conns: Map<ConnId, ConnView>,
    local_ips: Seq<IpAddr>,
    upstreams: Seq<(IpAddr, u16)>,
    kind: FrameKind,
    skip: bool,
    frame: Seq<u8>,
    id: ConnId,
)
    ensures
        ({
            let (next, ev) = spec_step(conns.remove(id), local_ips, upstreams, kind, skip, frame);
            &&& !next.contains_key(id)
            &&& !(ev matches SnifferEvent::Inject(i, _) && i == id)
            &&& !(ev matches SnifferEvent::Confirmed(i) && i == id)
            &&& !(ev matches SnifferEvent::Reset(i) && i == id)
        }),
{
    let m = conns.remove(id);
    lemma_step_is_local(m, local_ips, upstreams, kind, skip, frame, id);
    lemma_inject_at_most_once(m, local_ips, upstreams, kind, skip, frame, id);
    lemma_reports_end_connection(m, local_ips, upstreams, kind, skip, frame);
}

/// Frames of unregistered connections (or of other traffic) change nothing and make the
/// sniffer do nothing.
pub proof fn lemma_unwatched_frames_ignored(
    conns: Map<ConnId, ConnView>,
    local_ips: Seq<IpAddr>,
    upstreams: Seq<(IpAddr, u16)>,
    kind: FrameKind,
    skip: bool,
    frame: Seq<u8>,
)
    requires
        match spec_parse_frame(frame, local_ips, upstreams, kind) {
            None => true,
            Some(p) => !conns.contains_key(p.outbound_id),
        },
    ensures
        spec_step(conns, local_ips, upstreams, kind, skip, frame) == (conns, SnifferEvent::Nothing),
{
}

/// The decision core of the sniffer: the addresses it watches, the framing of its backend,
/// and the table of registered connections.
pub struct Sniffer {
    local_ips: Vec<IpAddr>,
    upstreams: Vec<(IpAddr, u16)>,
    frame_kind: FrameKind,
    skip_checksum: bool,
    /// The registered connections, each id at most once. A list rather than a hash map
    /// keyed by `ConnId`: with a struct key, the map's lookups cannot be proved.
    conns: Vec<(ConnId, ConnState)>,
}

impl Sniffer {
    /// The registered connections and what is known of each.
    pub closed spec fn connections(&self) -> Map<ConnId, ConnView> {
        table_map(self.conns@)
    }

    pub closed spec fn wf(&self) -> bool {
        distinct_ids(self.conns@)
    }

    pub closed spec fn spec_local_ips(&self) -> Seq<IpAddr> {
        self.local_ips@
    }

    pub closed spec fn spec_upstreams(&self) -> Seq<(IpAddr, u16)> {
        self.upstreams@
    }

    pub closed spec fn spec_frame_kind(&self) -> FrameKind {
        self.frame_kind
    }

    pub closed spec fn spec_skip_checksum(&self) -> bool {
        self.skip_checksum
    }

    /// The same addresses and backend settings as `other`.
    pub open spec fn same_setup(&self, other: &Sniffer) -> bool {
        &&& self.spec_local_ips() == other.spec_local_ips()
        &&& self.spec_upstreams() == other.spec_upstreams()
        &&& self.spec_frame_kind() == other.spec_frame_kind()
        &&& self.spec_skip_checksum() == other.spec_skip_checksum()
    }

    /// `spec_step` with this sniffer's table and setup.
    pub open spec fn step(&self, frame: Seq<u8>) -> (Map<ConnId, ConnView>, SnifferEvent) {
        spec_step(
            self.connections(),
            self.spec_local_ips(),
            self.spec_upstreams(),
            self.spec_frame_kind(),
            self.spec_skip_checksum(),
            frame,
        )
    }

    /// `spec_step_crashes` with this sniffer's table and setup.
    pub open spec fn crashes_on(&self, frame: Seq<u8>) -> bool {
        spec_step_crashes(
            self.connections(),
            self.spec_local_ips(),
            self.spec_upstreams(),
            self.spec_frame_kind(),
            self.spec_skip_checksum(),
            frame,
        )
    }

    pub fn new(
        local_ips: Vec<IpAddr>,
        upstream_addrs: Vec<(IpAddr, u16)>,
        frame_kind: FrameKind,
        skip_checksum: bool,
    ) -> (r: Sniffer)
        ensures
            r.wf(),
            r.connections() == Map::<ConnId, ConnView>::empty(),
            r.spec_local_ips() == local_ips@,
            r.spec_upstreams() == upstream_addrs@,
            r.spec_frame_kind() == frame_kind,
            r.spec_skip_checksum() == skip_checksum,
    {
        Sniffer {
            local_ips,
            upstreams: upstream_addrs,
            frame_kind,
            skip_checksum,
            conns: Vec::new(),
        }
    }

    fn find(&self, id: ConnId) -> (r: Option<usize>)
        ensures
            r matches Some(i) ==> i < self.conns@.len() && self.conns@[i as int].0 == id,
            r is None ==> forall|i: int| 0 <= i < self.conns@.len() ==> self.conns@[i].0 != id,
    {
        let mut i: usize = 0;
        while i < self.conns.len()
            invariant
                i <= self.conns@.len(),
                forall|j: int| 0 <= j < i ==> self.conns@[j].0 != id,
            decreases self.conns@.len() - i,
        {
            if self.conns[i].0 == id {
                return Some(i);
            }
            i = i + 1;
        }
        None
    }

    /// Takes the entry of `id` out of the table.
    fn take(&mut self, i: usize) -> (r: (ConnId, ConnState))
        requires
            old(self).wf(),
            i < old(self).conns@.len(),
        ensures
            final(self).wf(),
            final(self).same_setup(old(self)),
            r == old(self).conns@[i as int],
            final(self).connections() == old(self).connections().remove(r.0),
            old(self).connections()[r.0] == r.1@,
            old(self).connections().contains_key(r.0),
            forall|j: int| 0 <= j < final(self).conns@.len() ==> final(self).conns@[j].0 != r.0,
    {
        proof {
            lemma_table_lookup(self.conns@, i as int);
            lemma_table_remove(self.conns@, i as int);
        }
        let r = self.conns.remove(i);
        proof {
            let s = old(self).conns@;
            assert forall|j: int| 0 <= j < self.conns@.len() implies self.conns@[j].0 != r.0 by {
                if j < i {
                    assert(self.conns@[j] == s[j]);
                } else {
                    assert(self.conns@[j] == s[j + 1]);
                }
            }
        }
        r
    }

    /// Puts an entry for a connection that has none into the table.
    fn put(&mut self, id: ConnId, st: ConnState)
        requires
            old(self).wf(),
            forall|j: int| 0 <= j < old(self).conns@.len() ==> old(self).conns@[j].0 != id,
        ensures
            final(self).wf(),
            final(self).same_setup(old(self)),
            final(self).connections() == old(self).connections().insert(id, st@),
    {
        proof {
            lemma_table_push(self.conns@, (id, st));
        }
        self.conns.push((id, st));
    }

    /// Starts watching a connection (replacing what was known of it).
    pub fn register(&mut self, conn_id: ConnId, fake_payload: Vec<u8>)
        requires
            old(self).wf(),
        ensures
            final(self).wf(),
            final(self).same_setup(old(self)),
            final(self).connections() == old(self).connections().insert(
                conn_id,
                ConnView {
                    isn: None,
                    server_isn: None,
                    fake_payload: fake_payload@,
                    fake_injected: false,
                },
            ),
    {
        match self.find(conn_id) {
            Some(i) => {
                let _ = self.take(i);
            },
            None => {},
        }
        let st = ConnState { isn: None, server_isn: None, fake_payload, fake_injected: false };
        self.put(conn_id, st);
        proof {
            assert(final(self).connections() =~= old(self).connections().insert(conn_id, st@));
        }
    }

    /// Stops watching a connection.
    pub fn deregister(&mut self, conn_id: ConnId)
        requires
            old(self).wf(),
        ensures
            final(self).wf(),
            final(self).same_setup(old(self)),
            final(self).connections() == old(self).connections().remove(conn_id),
    {
        match self.find(conn_id) {
            Some(i) => {
                let _ = self.take(i);
            },
            None => {
                proof {
                    lemma_table_absent(self.conns@, conn_id);
                    assert(self.connections() =~= self.connections().remove(conn_id));
                }
            },
        }
    }

    /// The answer to a failed send of a connection's fake ClientHello: the connection's
    /// entry is dropped, and its handler is told `"inject failed: <reason>"`.
    pub fn inject_failed(&mut self, conn_id: ConnId, reason: &str) -> (action: SnifferAction)
        requires
            old(self).wf(),
        ensures
            final(self).wf(),
            final(self).same_setup(old(self)),
            final(self).connections() == old(self).connections().remove(conn_id),
            action matches SnifferAction::Report { conn_id: c, result: SnifferResult::Failed(m) }
                && c == conn_id && m@ == "inject failed: "@ + reason@,
    {
        self.deregister(conn_id);
        let m = String::from_str("inject failed: ").concat(reason);
        SnifferAction::Report { conn_id, result: SnifferResult::Failed(m) }
    }

    /// The watched packet in `frame`, the index of its connection's entry, and the offset
    /// of its TCP header.
    fn classify(&self, frame: &[u8]) -> (r: Option<(ParsedPacket, usize, usize)>)
        requires
            self.wf(),
        ensures
            match spec_classify(
                self.connections(),
                self.spec_local_ips(),
                self.spec_upstreams(),
                self.spec_frame_kind(),
                frame@,
            ) {
                None => r is None,
                Some((p, off)) => r matches Some((q, i, o)) && q == p && o == off && i
                    < self.conns@.len() && self.conns@[i as int].0 == p.outbound_id
                    && self.connections()[p.outbound_id] == self.conns@[i as int].1@
                    && off + 20 <= frame@.len(),
            },
    {
        let parsed = match parse_frame(frame, &self.local_ips, &self.upstreams, self.frame_kind) {
            Some(p) => p,
            None => return None,
        };
        let idx = match self.find(parsed.outbound_id) {
            Some(i) => i,
            None => {
                proof {
                    lemma_table_absent(self.conns@, parsed.outbound_id);
                }
                return None;
            },
        };
        proof {
            lemma_table_lookup(self.conns@, idx as int);
        }
        let link_len = self.frame_kind.link_header_len();
        let flen = frame.len();
        let tcp_off = match parsed.ip_version {
            IpVersion::V4 => link_len + ipv4::header_len(
                vstd::slice::slice_subrange(frame, link_len, flen),
            ),
            IpVersion::V6 => link_len + ipv6::IPV6_HEADER_LEN,
        };
        Some((parsed, idx, tcp_off))
    }

    /// Whether `handle_frame` would have to inject a fake that cannot be built from `frame`.
    pub fn frame_crashes(&self, frame: &[u8]) -> (r: bool)
        requires
            self.wf(),
        ensures
            r == self.crashes_on(frame@),
    {
        let (parsed, idx, tcp_off) = match self.classify(frame) {
            Some(c) => c,
            None => return false,
        };
        let link_len = self.frame_kind.link_header_len();
        let flen = frame.len();
        let tcp_hdr = vstd::slice::slice_subrange(frame, tcp_off, flen);
        let fl = tcp::flags(tcp_hdr);
        let seq = tcp::seq_num(tcp_hdr);
        let plen = tcp::payload_len(tcp_hdr, flen - tcp_off);
        proof {
            assert(tcp_hdr@[13] == frame@[tcp_off + 13]);
            assert(tcp_hdr@[12] == frame@[tcp_off + 12]);
            assert(ipv4::be32_at(tcp_hdr@, 4) == ipv4::be32_at(frame@, tcp_off + 4));
        }
        if !parsed.is_outbound {
            return false;
        }
        if fl & tcp::SYN != 0 && fl & tcp::ACK == 0 && plen == 0 {
            return false;
        }
        let st = &self.conns[idx].1;
        if !(fl & tcp::ACK != 0 && fl & (tcp::SYN | tcp::FIN | tcp::RST) == 0 && plen == 0
            && !st.fake_injected) {
            return false;
        }
        match st.isn {
            None => false,
            Some(isn) => {
                if seq != isn.wrapping_add(1) {
                    return false;
                }
                !fake_frame_ok(
                    frame,
                    st.fake_payload.len(),
                    parsed.ip_version,
                    link_len,
                    self.skip_checksum,
                )
            },
        }
    }

    /// Updates the table for one captured frame and says what the loop has to do next.
    pub fn handle_frame(&mut self, frame: &[u8]) -> (action: SnifferAction)
        requires
            old(self).wf(),
            !old(self).crashes_on(frame@),
        ensures
            final(self).wf(),
            final(self).same_setup(old(self)),
            final(self).connections() == old(self).step(frame@).0,
            action.event() == old(self).step(frame@).1,
            action matches SnifferAction::Report { result: SnifferResult::Failed(m), .. } ==> m@
                == "RST from server"@,
    {
        match self.classify(frame) {
            None => SnifferAction::Nothing,
            Some((parsed, idx, tcp_off)) => {
                if parsed.is_outbound {
                    self.on_outbound(frame, parsed, idx, tcp_off)
                } else {
                    self.on_inbound(frame, parsed, idx, tcp_off)
                }
            },
        }
    }

    #[verifier::spinoff_prover]
    fn on_outbound(&mut self, frame: &[u8], parsed: ParsedPacket, idx: usize, tcp_off: usize) -> (action: SnifferAction)
        requires
            old(self).wf(),
            !old(self).crashes_on(frame@),
            parsed.is_outbound,
            spec_classify(
                old(self).connections(),
                old(self).spec_local_ips(),
                old(self).spec_upstreams(),
                old(self).spec_frame_kind(),
                frame@,
            ) == Some((parsed, tcp_off as int)),
            idx < old(self).conns@.len(),
            old(self).conns@[idx as int].0 == parsed.outbound_id,
            old(self).connections()[parsed.outbound_id] == old(self).conns@[idx as int].1@,
            tcp_off + 20 <= frame@.len(),
        ensures
            final(self).wf(),
            final(self).same_setup(old(self)),
            final(self).connections() == old(self).step(frame@).0,
            action.event() == old(self).step(frame@).1,
            action is Nothing || action is Inject,
    {
        let id = parsed.outbound_id;
        let link_len = self.frame_kind.link_header_len();
        let flen = frame.len();
        let tcp_hdr = vstd::slice::slice_subrange(frame, tcp_off, flen);
        let fl = tcp::flags(tcp_hdr);
        let seq = tcp::seq_num(tcp_hdr);
        let plen = tcp::payload_len(tcp_hdr, flen - tcp_off);
        proof {
            assert(tcp_hdr@[13] == frame@[tcp_off + 13]);
            assert(tcp_hdr@[12] == frame@[tcp_off + 12]);
            assert(ipv4::be32_at(tcp_hdr@, 4) == ipv4::be32_at(frame@, tcp_off + 4));
        }
        let ghost conns0 = self.connections();
        if fl & tcp::SYN != 0 && fl & tcp::ACK == 0 && plen == 0 {
            let (cid, mut st) = self.take(idx);
            st.isn = Some(seq);
            self.put(cid, st);
            proof {
                assert(self.connections() =~= conns0.insert(id, st@));
            }
            return SnifferAction::Nothing;
        }
        if fl & tcp::ACK != 0 && fl & (tcp::SYN | tcp::FIN | tcp::RST) == 0 && plen == 0
            && !self.conns[idx].1.fake_injected {
            if let Some(isn) = self.conns[idx].1.isn {
                if seq != isn.wrapping_add(1) {
                    return SnifferAction::Nothing;
                }
                let (cid, mut st) = self.take(idx);
                st.fake_injected = true;
                let fake = build_fake_frame(
                    frame,
                    isn,
                    st.fake_payload.as_slice(),
                    parsed.ip_version,
                    link_len,
                    self.skip_checksum,
                );
                self.put(cid, st);
                proof {
                    assert(self.connections() =~= conns0.insert(id, st@));
                }
                return SnifferAction::Inject { conn_id: cid, frame: fake };
            }
            return SnifferAction::Nothing;
        }
        SnifferAction::Nothing
    }

    #[verifier::spinoff_prover]
    fn on_inbound(&mut self, frame: &[u8], parsed: ParsedPacket, idx: usize, tcp_off: usize) -> (action: SnifferAction)
        requires
            old(self).wf(),
            !parsed.is_outbound,
            spec_classify(
                old(self).connections(),
                old(self).spec_local_ips(),
                old(self).spec_upstreams(),
                old(self).spec_frame_kind(),
                frame@,
            ) == Some((parsed, tcp_off as int)),
            idx < old(self).conns@.len(),
            old(self).conns@[idx as int].0 == parsed.outbound_id,
            old(self).connections()[parsed.outbound_id] == old(self).conns@[idx as int].1@,
            tcp_off + 20 <= frame@.len(),
        ensures
            final(self).wf(),
            final(self).same_setup(old(self)),
            final(self).connections() == old(self).step(frame@).0,
            action.event() == old(self).step(frame@).1,
            action matches SnifferAction::Report { result: SnifferResult::Failed(m), .. } ==> m@
                == "RST from server"@,
    {
        broadcast use vstd::string::group_string_axioms;

        let id = parsed.outbound_id;
        let flen = frame.len();
        let tcp_hdr = vstd::slice::slice_subrange(frame, tcp_off, flen);
        let fl = tcp::flags(tcp_hdr);
        let seq = tcp::seq_num(tcp_hdr);
        let ack = tcp::ack_num(tcp_hdr);
        let plen = tcp::payload_len(tcp_hdr, flen - tcp_off);
        proof {
            assert(tcp_hdr@[13] == frame@[tcp_off + 13]);
            assert(tcp_hdr@[12] == frame@[tcp_off + 12]);
            assert(ipv4::be32_at(tcp_hdr@, 4) == ipv4::be32_at(frame@, tcp_off + 4));
            assert(ipv4::be32_at(tcp_hdr@, 8) == ipv4::be32_at(frame@, tcp_off + 8));
        }
        let ghost conns0 = self.connections();
        if fl & tcp::ACK != 0 && fl & (tcp::SYN | tcp::FIN | tcp::RST) == 0 && plen == 0
            && self.conns[idx].1.fake_injected {
            if let Some(isn) = self.conns[idx].1.isn {
                if ack == isn.wrapping_add(1) {
                    let (cid, _st) = self.take(idx);
                    return SnifferAction::Report { conn_id: cid, result: SnifferResult::FakeConfirmed };
                }
            }
        }
        if fl & tcp::SYN != 0 && fl & tcp::ACK != 0 && plen == 0 {
            if let Some(isn) = self.conns[idx].1.isn {
                if ack == isn.wrapping_add(1) {
                    let (cid, mut st) = self.take(idx);
                    st.server_isn = Some(seq);
                    self.put(cid, st);
                    proof {
                        assert(self.connections() =~= conns0.insert(id, st@));
                    }
                }
            }
            return SnifferAction::Nothing;
        }
        if fl & tcp::RST != 0 {
            let (cid, _st) = self.take(idx);
            return SnifferAction::Report {
                conn_id: cid,
                result: SnifferResult::Failed("RST from server".to_string()),
            };
        }
        SnifferAction::Nothing
    }
}

} // verus!
