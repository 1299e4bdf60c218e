use super::be16;
use super::tcp::{ones_complement_sum, spec_ones_complement, word_sum};
use vstd::prelude::*;

verus! {

pub const IPV4_MIN_HEADER_LEN: usize = 20;

/// The header length in bytes that the IHL nibble announces.
pub open spec fn spec_header_len(hdr: Seq<u8>) -> int {
    (hdr[0] % 16) * 4
}

/// A big-endian 32-bit value read from four consecutive bytes starting at `at`.
pub open spec fn be32_at(s: Seq<u8>, at: int) -> int {
    s[at] as int * 0x1000000 + s[at + 1] as int * 0x10000 + s[at + 2] as int * 0x100 + s[at
        + 3] as int
}

pub fn header_len(hdr: &[u8]) -> (r: usize)
    requires
        hdr@.len() >= 1,
    ensures
        r == spec_header_len(hdr@),
{
    let b = hdr[0];
    let ihl = b & 0x0f;
    assert(ihl == b % 16) by (bit_vector)
        requires
            ihl == b & 0x0f,
    ;
    ihl as usize * 4
}

pub fn total_length(hdr: &[u8]) -> (r: u16)
    requires
        hdr@.len() >= 4,
    ensures
        r == be16(hdr@[2], hdr@[3]),
{
    hdr[2] as u16 * 256 + hdr[3] as u16
}

pub fn protocol(hdr: &[u8]) -> (r: u8)
    requires
        hdr@.len() >= 10,
    ensures
        r == hdr@[9],
{
    hdr[9]
}

/// The source address, as the big-endian integer of its four octets.
pub fn src_addr(hdr: &[u8]) -> (r: u32)
    requires
        hdr@.len() >= 20,
    ensures
        r == be32_at(hdr@, 12),
{
    hdr[12] as u32 * 0x1000000 + hdr[13] as u32 * 0x10000 + hdr[14] as u32 * 0x100
        + hdr[15] as u32
}

/// The destination address, as the big-endian integer of its four octets.
pub fn dst_addr(hdr: &[u8]) -> (r: u32)
    requires
        hdr@.len() >= 20,
    ensures
        r == be32_at(hdr@, 16),
{
    hdr[16] as u32 * 0x1000000 + hdr[17] as u32 * 0x10000 + hdr[18] as u32 * 0x100
        + hdr[19] as u32
}

/// Writes `v` in big-endian order at `at` and `at + 1`.
pub fn put_be16(buf: &mut [u8], at: usize, v: u16)
    requires
        at + 2 <= old(buf)@.len(),
    ensures
        final(buf)@ == old(buf)@.update(at as int, (v / 256) as u8).update(
            at + 1,
            (v % 256) as u8,
        ),
{
    buf[at] = (v / 256) as u8;
    buf[at + 1] = (v % 256) as u8;
}

pub fn set_total_length(hdr: &mut [u8], len: u16)
    requires
        old(hdr)@.len() >= 4,
    ensures
        final(hdr)@ == old(hdr)@.update(2, (len / 256) as u8).update(3, (len % 256) as u8),
{
    put_be16(hdr, 2, len);
}

/// Adds one (modulo 2^16) to the identification field.
pub fn increment_ident(hdr: &mut [u8])
    requires
        old(hdr)@.len() >= 6,
    ensures
        ({
            let id = (be16(old(hdr)@[4], old(hdr)@[5]) + 1) % 0x10000;
            final(hdr)@ == old(hdr)@.update(4, (id / 256) as u8).update(5, (id % 256) as u8)
        }),
{
    let id: u16 = (hdr[4] as u16 * 256 + hdr[5] as u16).wrapping_add(1);
    put_be16(hdr, 4, id);
}

/// The IPv4 header checksum of `hdr[..ihl]` once bytes 10 and 11 are zero.
pub open spec fn spec_ipv4_checksum(hdr: Seq<u8>) -> int {
    spec_ones_complement(
        word_sum(hdr.update(10, 0).update(11, 0).subrange(0, spec_header_len(hdr))) as int,
    )
}

pub fn recompute_checksum(hdr: &mut [u8])
    requires
        old(hdr)@.len() >= 12,
        old(hdr)@.len() >= spec_header_len(old(hdr)@),
    ensures
        ({
            let c = spec_ipv4_checksum(old(hdr)@);
            final(hdr)@ == old(hdr)@.update(10, (c / 256) as u8).update(11, (c % 256) as u8)
        }),
{
    assert(old(hdr)@.subrange(0, old(hdr)@.len() as int) =~= old(hdr)@);
    recompute_checksum_at(hdr, 0);
}

/// Recomputes the checksum of the IPv4 header that starts at `off` in `buf`; the header
/// runs to the end of `buf` as far as the IHL is concerned.
pub fn recompute_checksum_at(buf: &mut [u8], off: usize)
    requires
        off + 12 <= old(buf)@.len(),
        off + spec_header_len(old(buf)@.subrange(off as int, old(buf)@.len() as int)) <= old(
            buf,
        )@.len(),
    ensures
        ({
            let c = spec_ipv4_checksum(old(buf)@.subrange(off as int, old(buf)@.len() as int));
            final(buf)@ == old(buf)@.update(off + 10, (c / 256) as u8).update(
                off + 11,
                (c % 256) as u8,
            )
        }),
{
    let ghost hdr = old(buf)@.subrange(off as int, old(buf)@.len() as int);
    let len = buf.len();
    let ihl = header_len(vstd::slice::slice_subrange(&*buf, off, len));
    buf[off + 10] = 0;
    buf[off + 11] = 0;
    let part = vstd::slice::slice_subrange(&*buf, off, off + ihl);
    assert(part@ =~= hdr.update(10, 0).update(11, 0).subrange(0, spec_header_len(hdr)));
    proof {
        super::tcp::lemma_word_sum_bound(part@);
    }
    let cksum = ones_complement_sum(part);
    put_be16(buf, off + 10, cksum);
}

/// The TCP pseudo header: source and destination addresses, a zero byte, the protocol
/// number 6 and the TCP length.
pub open spec fn spec_pseudo_header(hdr: Seq<u8>, tcp_len: u16) -> Seq<u8> {
    hdr.subrange(12, 20) + seq![0u8, 6u8, (tcp_len / 256) as u8, (tcp_len % 256) as u8]
}

pub fn pseudo_header(hdr: &[u8], tcp_len: u16) -> (ph: [u8; 12])
    requires
        hdr@.len() >= 20,
    ensures
        ph@ == spec_pseudo_header(hdr@, tcp_len),
{
    let ph = [
        hdr[12],
        hdr[13],
        hdr[14],
        hdr[15],
        hdr[16],
        hdr[17],
        hdr[18],
        hdr[19],
        0,
        6,
        (tcp_len / 256) as u8,
        (tcp_len % 256) as u8,
    ];
    assert(ph@ =~= spec_pseudo_header(hdr@, tcp_len));
    ph
}

} // verus!
